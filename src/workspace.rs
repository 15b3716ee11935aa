use vstd::prelude::*;
use crate::model::{Block, BlockView, Content, FileContent, StoreError};
use crate::session::AppState;
use crate::store::views;
use crate::clock::current_time;
use crate::storage::{category_of, extension_of, get_file_type};
use crate::annotation::{file_name_of, text_or};
use crate::blocks::create_block_at;

verus! {

/// Whether a component of `rel` starts at `i` with a dot.
pub open spec fn dot_component_at(rel: Seq<char>, i: int) -> bool {
    rel[i] == '.' && (i == 0 || rel[i - 1] == '/')
}

/// Whether some component of the relative path `rel` starts with a dot.
pub open spec fn is_hidden(rel: Seq<char>) -> bool {
    exists|i: int| 0 <= i < rel.len() && #[trigger] dot_component_at(rel, i)
}

/// Whether some component of the relative path `rel` starts with a dot.
pub fn is_hidden_path(rel: &str) -> (r: bool)
    ensures
        r == is_hidden(rel@),
{
    let n = rel.unicode_len();
    let mut i: usize = 0;
    while i < n
        invariant
            n == rel@.len(),
            0 <= i <= n,
            forall|k: int| 0 <= k < i ==> !#[trigger] dot_component_at(rel@, k),
        decreases n - i,
    {
        if rel.get_char(i) == '.' && (i == 0 || rel.get_char(i - 1) == '/') {
            assert(dot_component_at(rel@, i as int));
            return true;
        }
        i = i + 1;
    }
    false
}

/// Whether `v` is a file block recorded at the relative path `rel`.
pub open spec fn is_file_at(v: BlockView, rel: Seq<char>) -> bool {
    v.block_type == "file"@ && v.content is File && v.content->File_0.path@ == rel
}

/// The first file block of `s` recorded at `rel`.
pub open spec fn first_file_at(s: Seq<BlockView>, rel: Seq<char>) -> Option<BlockView>
    decreases s.len(),
{
    if s.len() == 0 {
        None
    } else if is_file_at(s[0], rel) {
        Some(s[0])
    } else {
        first_file_at(s.drop_first(), rel)
    }
}

/// A file met while scanning the workspace: already indexed, or newly
/// indexed (to be written, then cached, by the caller).
pub enum IndexedFile {
    Existing(Block),
    Created(Block),
}

/// The first cached file block recorded at `rel`.
pub fn find_file_at(state: &AppState, rel: &str) -> (r: Option<Block>)
    requires
        state.wf(),
    ensures
        match r {
            Some(b) => first_file_at(state.entries(), rel@) == Some(b@),
            None => first_file_at(state.entries(), rel@) is None,
        },
{
    let all = state.snapshot();
    let ghost s = state.entries();
    let mut i: usize = 0;
    assert(s.subrange(0, s.len() as int) =~= s);
    while i < all.len()
        invariant
            views(all@) == s,
            s == state.entries(),
            0 <= i <= all@.len(),
            first_file_at(s, rel@) == first_file_at(s.subrange(i as int, s.len() as int), rel@),
        decreases all@.len() - i,
    {
        let ghost t = s.subrange(i as int, s.len() as int);
        assert(t.drop_first() == s.subrange(i + 1, s.len() as int));
        assert(t[0] == all@[i as int]@);
        let b = &all[i];
        if b.has_type("file") {
            match &b.content {
                Content::File(f) => {
                    if crate::model::same_text(f.path.as_str(), rel) {
                        assert(is_file_at(t[0], rel@));
                        assert(first_file_at(t, rel@) == Some(t[0]));
                        return Some(b.duplicate());
                    }
                },
                _ => {},
            }
        }
        i = i + 1;
    }
    None
}

/// What scanning the workspace does with the file at relative path `rel`
/// and full path `full`: hidden paths and files of category `other` are
/// skipped, a path already recorded by a file block gives that block, any
/// other file gets a new file block.
pub fn index_workspace_entry(state: &mut AppState, rel: &str, full: &str) -> (r: Result<
    Option<IndexedFile>,
    StoreError,
>)
    requires
        old(state).wf(),
    ensures
        final(state).wf(),
        final(state).cache() == old(state).cache(),
        final(state).data_dir_spec() == old(state).data_dir_spec(),
        !old(state).is_open() ==> r is Err && r->Err_0 == StoreError::NoWorkspace,
        old(state).is_open() && is_hidden(rel@) ==> r is Ok && r->Ok_0 is None,
        old(state).is_open() && !is_hidden(rel@) && first_file_at(old(state).entries(), rel@) is Some
            ==> r is Ok && (r->Ok_0 matches Some(IndexedFile::Existing(b)) && Some(b@)
            == first_file_at(old(state).entries(), rel@)),
        old(state).is_open() && !is_hidden(rel@) && first_file_at(old(state).entries(), rel@) is None
            && category_of(extension_of(full@)) == "other"@ ==> r is Ok && r->Ok_0 is None,
        old(state).is_open() && !is_hidden(rel@) && first_file_at(old(state).entries(), rel@) is None
            && category_of(extension_of(full@)) != "other"@ && old(state).last_id() == u64::MAX
            ==> r is Err && r->Err_0 == StoreError::IdsExhausted,
        old(state).is_open() && !is_hidden(rel@) && first_file_at(old(state).entries(), rel@) is None
            && category_of(extension_of(full@)) != "other"@ && old(state).last_id() < u64::MAX
            ==> r is Ok && r->Ok_0 is Some && r->Ok_0->Some_0 is Created,
        r matches Ok(Some(IndexedFile::Created(b))) ==> {
            &&& final(state).last_id() == old(state).last_id() + 1
            &&& b@.id == final(state).last_id()
            &&& b@.block_type == "file"@
            &&& b@.created_at == b@.updated_at
            &&& b@.connections == Seq::<u64>::empty()
            &&& b@.content == Content::File(b@.content->File_0)
            &&& b@.content->File_0.path@ == rel@
            &&& b@.content->File_0.filename@ == text_or(file_name_of(full@), "Unknown"@)
            &&& b@.content->File_0.file_type@ == category_of(extension_of(full@))
            &&& b@.content->File_0.full_path@ == full@
            &&& b@.content->File_0.indexed_at is None
        },
        !(r matches Ok(Some(IndexedFile::Created(_)))) ==> final(state).last_id() == old(
            state,
        ).last_id(),
{
    if state.data_dir().is_none() {
        return Err(StoreError::NoWorkspace);
    }
    if is_hidden_path(rel) {
        return Ok(None);
    }
    match find_file_at(state, rel) {
        Some(b) => {
            return Ok(Some(IndexedFile::Existing(b)));
        },
        None => {},
    }
    let file_type = get_file_type(full);
    if crate::model::same_text(file_type.as_str(), "other") {
        return Ok(None);
    }
    let filename = match crate::annotation::path_file_name(full) {
        Some(n) => n,
        None => "Unknown".to_string(),
    };
    let content = Content::File(
        FileContent {
            path: rel.to_string(),
            filename,
            file_type,
            full_path: full.to_string(),
            indexed_at: None,
        },
    );
    let now = current_time();
    match create_block_at(state, "file", content, now) {
        Ok(b) => Ok(Some(IndexedFile::Created(b))),
        Err(e) => Err(e),
    }
}

} // verus!
