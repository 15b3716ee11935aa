use vstd::prelude::*;

verus! {

/// A point in time, in microseconds since the Unix epoch (UTC).
#[derive(Clone, Copy, Debug, PartialEq, Eq, Structural)]
pub struct Timestamp {
    pub micros: i64,
}

/// Fields of a block that refers to a file of the workspace.
#[derive(Clone, Debug, PartialEq)]
pub struct FileContent {
    pub path: String,
    pub filename: String,
    pub file_type: String,
    pub full_path: String,
    pub indexed_at: Option<String>,
}

/// Fields of a channel block.
#[derive(Clone, Debug, PartialEq)]
pub struct ChannelContent {
    pub title: String,
    pub description: String,
}

/// Fields of an annotation block.
#[derive(Clone, Debug, PartialEq)]
pub struct AnnotationContent {
    pub text: String,
    pub source_file_id: Option<u64>,
    pub source_file_name: Option<String>,
    pub position: Option<u64>,
    pub selected_text: Option<String>,
    pub annotation_type: String,
}

/// The payload of a block: one variant per recognised schema, and an opaque
/// fallback that keeps any other structured value as its JSON text.
#[derive(Clone, Debug, PartialEq)]
pub enum Content {
    File(FileContent),
    Channel(ChannelContent),
    Annotation(AnnotationContent),
    Opaque(String),
}

/// The one persisted entity of the store.
#[derive(Clone, Debug, PartialEq)]
pub struct Block {
    pub id: u64,
    pub created_at: Timestamp,
    pub updated_at: Timestamp,
    pub block_type: String,
    pub content: Content,
    pub connections: Vec<u64>,
}

/// Mathematical value of a block.
pub ghost struct BlockView {
    pub id: u64,
    pub created_at: Timestamp,
    pub updated_at: Timestamp,
    pub block_type: Seq<char>,
    pub content: Content,
    pub connections: Seq<u64>,
}

impl View for Block {
    type V = BlockView;

    open spec fn view(&self) -> BlockView {
        BlockView {
            id: self.id,
            created_at: self.created_at,
            updated_at: self.updated_at,
            block_type: self.block_type@,
            content: self.content,
            connections: self.connections@,
        }
    }
}

/// Why a store operation did not complete.
#[derive(Clone, Debug, PartialEq)]
pub enum StoreError {
    /// No workspace is open.
    NoWorkspace,
    /// The referenced block is absent.
    NotFound(u64),
    /// The block exists but has the wrong type for the operation.
    InvalidTarget(u64),
    /// Every identifier has been issued.
    IdsExhausted,
}

/// `true` when the two texts hold the same characters.
pub fn same_text(a: &str, b: &str) -> (r: bool)
    ensures
        r == (a@ == b@),
{
    let n = a.unicode_len();
    if n != b.unicode_len() {
        return false;
    }
    let mut i: usize = 0;
    while i < n
        invariant
            n == a@.len(),
            n == b@.len(),
            0 <= i <= n,
            a@.subrange(0, i as int) == b@.subrange(0, i as int),
        decreases n - i,
    {
        if a.get_char(i) != b.get_char(i) {
            assert(a@[i as int] != b@[i as int]);
            return false;
        }
        assert(a@.subrange(0, i + 1) == a@.subrange(0, i as int).push(a@[i as int]));
        assert(b@.subrange(0, i + 1) == b@.subrange(0, i as int).push(b@[i as int]));
        i = i + 1;
    }
    assert(a@ == a@.subrange(0, n as int));
    assert(b@ == b@.subrange(0, n as int));
    true
}

pub fn copy_text(s: &Option<String>) -> (r: Option<String>)
    ensures
        r == *s,
{
    match s {
        Some(t) => Some(t.clone()),
        None => None,
    }
}

impl Content {
    /// A copy equal to `self`.
    pub fn duplicate(&self) -> (r: Content)
        ensures
            r == *self,
    {
        match self {
            Content::File(f) => Content::File(
                FileContent {
                    path: f.path.clone(),
                    filename: f.filename.clone(),
                    file_type: f.file_type.clone(),
                    full_path: f.full_path.clone(),
                    indexed_at: copy_text(&f.indexed_at),
                },
            ),
            Content::Channel(c) => Content::Channel(
                ChannelContent { title: c.title.clone(), description: c.description.clone() },
            ),
            Content::Annotation(a) => Content::Annotation(
                AnnotationContent {
                    text: a.text.clone(),
                    source_file_id: a.source_file_id,
                    source_file_name: copy_text(&a.source_file_name),
                    position: a.position,
                    selected_text: copy_text(&a.selected_text),
                    annotation_type: a.annotation_type.clone(),
                },
            ),
            Content::Opaque(j) => Content::Opaque(j.clone()),
        }
    }
}

pub fn copy_ids(v: &Vec<u64>) -> (r: Vec<u64>)
    ensures
        r@ == v@,
{
    let mut r: Vec<u64> = Vec::new();
    let mut i: usize = 0;
    while i < v.len()
        invariant
            0 <= i <= v@.len(),
            r@ == v@.subrange(0, i as int),
        decreases v@.len() - i,
    {
        r.push(v[i]);
        assert(v@.subrange(0, i + 1) == v@.subrange(0, i as int).push(v@[i as int]));
        i = i + 1;
    }
    assert(v@ == v@.subrange(0, v@.len() as int));
    r
}

impl Block {
    /// A copy with the same value.
    pub fn duplicate(&self) -> (r: Block)
        ensures
            r@ == self@,
    {
        Block {
            id: self.id,
            created_at: self.created_at,
            updated_at: self.updated_at,
            block_type: self.block_type.clone(),
            content: self.content.duplicate(),
            connections: copy_ids(&self.connections),
        }
    }

    /// `true` when the block's type tag is `tag`.
    pub fn has_type(&self, tag: &str) -> (r: bool)
        ensures
            r == (self@.block_type == tag@),
    {
        same_text(self.block_type.as_str(), tag)
    }
}

} // verus!
