use vstd::prelude::*;
use crate::model::{Block, BlockView, Content, FileContent, AnnotationContent, StoreError, Timestamp, same_text};
use crate::store::views;
use crate::session::AppState;
use crate::clock::{current_time, rfc3339_text, rfc3339_of};
use crate::storage::{category_of, extension_of, get_file_type, texts};
use crate::blocks::{create_block, create_block_at, contains_id};

verus! {

/// The final component of a path, as `std::path::Path::file_name` gives it.
pub uninterp spec fn file_name_of(path: Seq<char>) -> Option<Seq<char>>;

/// The path without its final component, as `std::path::Path::parent` gives it.
pub uninterp spec fn parent_of(path: Seq<char>) -> Option<Seq<char>>;

/// Relies on std::path::Path::file_name: the final component of the path.
#[verifier::external_body]
pub(crate) fn path_file_name(path: &str) -> (r: Option<String>)
    ensures
        r matches Some(n) ==> file_name_of(path@) == Some(n@),
        r is None ==> file_name_of(path@) is None,
{
    match std::path::Path::new(path).file_name() {
        Some(n) => Some(n.to_string_lossy().into_owned()),
        None => None,
    }
}

/// Relies on std::path::Path::parent: the path without its final component.
#[verifier::external_body]
fn path_parent(path: &str) -> (r: Option<String>)
    ensures
        r matches Some(p) ==> parent_of(path@) == Some(p@),
        r is None ==> parent_of(path@) is None,
{
    match std::path::Path::new(path).parent() {
        Some(p) => Some(p.to_string_lossy().into_owned()),
        None => None,
    }
}

pub open spec fn text_or(o: Option<Seq<char>>, d: Seq<char>) -> Seq<char> {
    match o {
        Some(t) => t,
        None => d,
    }
}

pub open spec fn opt_text(o: Option<String>) -> Option<Seq<char>> {
    match o {
        Some(t) => Some(t@),
        None => None,
    }
}

/// The fields of a block indexed from the file at `p` at time `now`.
pub open spec fn indexed_file_fields(f: FileContent, p: Seq<char>, now: Timestamp) -> bool {
    &&& f.filename@ == text_or(file_name_of(p), "Unknown"@)
    &&& f.path@ == text_or(parent_of(p), ""@)
    &&& f.full_path@ == p
    &&& f.file_type@ == category_of(extension_of(p))
    &&& (f.indexed_at matches Some(t) ==> t@ == rfc3339_of(now.micros))
}

/// A new file block for the file at `p`, with identifier `id`.
pub open spec fn is_indexed_file(v: BlockView, id: u64, p: Seq<char>) -> bool {
    &&& v.id == id
    &&& v.block_type == "file"@
    &&& v.created_at == v.updated_at
    &&& v.connections == Seq::<u64>::empty()
    &&& v.content is File
    &&& indexed_file_fields(v.content->File_0, p, v.created_at)
}

/// The content of a file block, from the final component, the parent
/// directory, the full path, the category and the indexing time.
pub fn file_content(
    file_name: Option<String>,
    parent: Option<String>,
    full_path: &str,
    file_type: String,
    indexed_at: Option<String>,
) -> (r: Content)
    ensures
        r is File,
        r->File_0.filename@ == text_or(opt_text(file_name), "Unknown"@),
        r->File_0.path@ == text_or(opt_text(parent), ""@),
        r->File_0.full_path@ == full_path@,
        r->File_0.file_type == file_type,
        r->File_0.indexed_at == indexed_at,
{
    let filename = match file_name {
        Some(n) => n,
        None => "Unknown".to_string(),
    };
    let path = match parent {
        Some(p) => p,
        None => "".to_string(),
    };
    Content::File(
        FileContent { path, filename, file_type, full_path: full_path.to_string(), indexed_at },
    )
}

/// A new file block for the file at `file_path`. The block is not cached:
/// the caller writes it, then caches it.
pub fn index_file(state: &mut AppState, file_path: &str) -> (r: Result<Block, StoreError>)
    requires
        old(state).wf(),
    ensures
        final(state).wf(),
        final(state).cache() == old(state).cache(),
        final(state).workspace_spec() == old(state).workspace_spec(),
        final(state).data_dir_spec() == old(state).data_dir_spec(),
        !old(state).is_open() ==> r is Err && r->Err_0 == StoreError::NoWorkspace
            && final(state).last_id() == old(state).last_id(),
        old(state).is_open() && old(state).last_id() == u64::MAX ==> r is Err && r->Err_0
            == StoreError::IdsExhausted && final(state).last_id() == old(state).last_id(),
        old(state).is_open() && old(state).last_id() < u64::MAX ==> r is Ok
            && final(state).last_id() == old(state).last_id() + 1,
        r matches Ok(b) ==> is_indexed_file(b@, final(state).last_id(), file_path@),
{
    let file_name = path_file_name(file_path);
    let parent = path_parent(file_path);
    let file_type = get_file_type(file_path);
    let now = current_time();
    let indexed_at = rfc3339_text(now);
    let content = file_content(file_name, parent, file_path, file_type, indexed_at);
    create_block_at(state, "file", content, now)
}

/// Whether a directory scan indexes the file at `p`: files of category
/// `other` are left out.
pub open spec fn indexable(p: Seq<char>) -> bool {
    category_of(extension_of(p)) != "other"@
}

/// The paths that a directory scan indexes, in order.
pub open spec fn indexable_paths(ps: Seq<Seq<char>>) -> Seq<Seq<char>>
    decreases ps.len(),
{
    if ps.len() == 0 {
        Seq::empty()
    } else if indexable(ps.last()) {
        indexable_paths(ps.drop_last()).push(ps.last())
    } else {
        indexable_paths(ps.drop_last())
    }
}

pub proof fn lemma_indexable_paths(ps: Seq<Seq<char>>)
    ensures
        forall|k: int|
            0 <= k < indexable_paths(ps).len() ==> indexable(#[trigger] indexable_paths(ps)[k]),
    decreases ps.len(),
{
    if ps.len() > 0 {
        lemma_indexable_paths(ps.drop_last());
        let q = indexable_paths(ps.drop_last());
        if indexable(ps.last()) {
            assert forall|k: int| 0 <= k < q.push(ps.last()).len() implies indexable(
                #[trigger] q.push(ps.last())[k],
            ) by {
                if k < q.len() {
                    assert(q.push(ps.last())[k] == q[k]);
                }
            }
        }
    }
}

/// Whether the file at `path` is indexed by a directory scan.
pub fn is_indexable(path: &str) -> (r: bool)
    ensures
        r == indexable(path@),
{
    let file_type = get_file_type(path);
    !same_text(file_type.as_str(), "other")
}

/// New file blocks for the files among `paths` whose extension a directory
/// scan indexes, in order; a file that cannot be indexed is skipped. The
/// blocks are not cached: the caller writes and caches each.
pub fn index_directory(state: &mut AppState, paths: &Vec<String>) -> (r: Vec<Block>)
    requires
        old(state).wf(),
    ensures
        final(state).wf(),
        final(state).cache() == old(state).cache(),
        final(state).workspace_spec() == old(state).workspace_spec(),
        final(state).data_dir_spec() == old(state).data_dir_spec(),
        !old(state).is_open() ==> r@.len() == 0,
        r@.len() <= indexable_paths(texts(paths@)).len(),
        old(state).is_open() && old(state).last_id() + indexable_paths(texts(paths@)).len()
            <= u64::MAX ==> r@.len() == indexable_paths(texts(paths@)).len(),
        forall|k: int|
            0 <= k < r@.len() ==> is_indexed_file(
                #[trigger] r@[k]@,
                (old(state).last_id() + 1 + k) as u64,
                indexable_paths(texts(paths@))[k],
            ),
        forall|k: int|
            0 <= k < r@.len() ==> (#[trigger] r@[k]@).content->File_0.file_type@ != "other"@,
{
    let ghost l0 = state.last_id();
    let ghost m0 = state.cache();
    let ghost d0 = state.data_dir_spec();
    let ghost w0 = state.workspace_spec();
    let ghost open = state.is_open();
    let mut r: Vec<Block> = Vec::new();
    let mut i: usize = 0;
    while i < paths.len()
        invariant
            0 <= i <= paths@.len(),
            state.wf(),
            state.cache() == m0,
            state.data_dir_spec() == d0,
            state.workspace_spec() == w0,
            open == state.is_open(),
            !open ==> r@.len() == 0,
            r@.len() <= indexable_paths(texts(paths@.subrange(0, i as int))).len(),
            state.last_id() == l0 + r@.len(),
            r@.len() < indexable_paths(texts(paths@.subrange(0, i as int))).len() ==> (!open
                || state.last_id() == u64::MAX),
            open && l0 + indexable_paths(texts(paths@.subrange(0, i as int))).len() <= u64::MAX
                ==> r@.len() == indexable_paths(texts(paths@.subrange(0, i as int))).len(),
            forall|k: int|
                0 <= k < r@.len() ==> is_indexed_file(
                    #[trigger] r@[k]@,
                    (l0 + 1 + k) as u64,
                    indexable_paths(texts(paths@.subrange(0, i as int)))[k],
                ),
        decreases paths@.len() - i,
    {
        let ghost before = indexable_paths(texts(paths@.subrange(0, i as int)));
        assert(texts(paths@.subrange(0, i + 1)).drop_last() =~= texts(paths@.subrange(0, i as int)));
        assert(texts(paths@.subrange(0, i + 1)).last() == paths@[i as int]@);
        let p = paths[i].as_str();
        if is_indexable(p) {
            assert(indexable_paths(texts(paths@.subrange(0, i + 1))) == before.push(paths@[i as int]@));
            match index_file(state, p) {
                Ok(b) => {
                    let ghost rb = r@;
                    r.push(b);
                    assert(r@ == rb.push(b));
                },
                Err(_) => {},
            }
            assert forall|k: int| 0 <= k < before.len() implies before.push(paths@[i as int]@)[k]
                == before[k] by {}
        } else {
            assert(indexable_paths(texts(paths@.subrange(0, i + 1))) == before);
        }
        i = i + 1;
    }
    assert(paths@.subrange(0, paths@.len() as int) =~= paths@);
    proof {
        lemma_indexable_paths(texts(paths@));
    }
    r
}

/// The blocks that connect to a newly created block, in order: the file it
/// annotates, then the channel it is added to.
pub open spec fn link_sources(source_file_id: Option<u64>, parent_channel_id: Option<u64>) -> Seq<u64> {
    let first = match source_file_id {
        Some(f) => seq![f],
        None => Seq::empty(),
    };
    match parent_channel_id {
        Some(c) => first.push(c),
        None => first,
    }
}

/// The blocks that the caller connects to a newly created block, in order,
/// once that block is written and cached.
pub fn new_block_links(source_file_id: Option<u64>, parent_channel_id: Option<u64>) -> (r: Vec<u64>)
    ensures
        r@ == link_sources(source_file_id, parent_channel_id),
{
    let mut r: Vec<u64> = Vec::new();
    match source_file_id {
        Some(f) => r.push(f),
        None => {},
    }
    match parent_channel_id {
        Some(c) => r.push(c),
        None => {},
    }
    assert(r@ =~= link_sources(source_file_id, parent_channel_id));
    r
}

/// The name of the file block `id`, when it is cached and is a file.
pub open spec fn source_name(m: Map<u64, BlockView>, id: Option<u64>) -> Option<String> {
    match id {
        Some(f) => if m.contains_key(f) && m[f].content is File {
            Some(m[f].content->File_0.filename)
        } else {
            None
        },
        None => None,
    }
}

/// A new annotation block; `source_file_name` is taken from the source file
/// block when it is cached. The block is not cached: the caller writes it,
/// caches it, then connects the source file and the parent channel to it.
pub fn create_annotation(
    state: &mut AppState,
    text: String,
    source_file_id: Option<u64>,
    position: Option<u64>,
    selected_text: Option<String>,
) -> (r: Result<Block, StoreError>)
    requires
        old(state).wf(),
    ensures
        final(state).wf(),
        final(state).cache() == old(state).cache(),
        final(state).workspace_spec() == old(state).workspace_spec(),
        final(state).data_dir_spec() == old(state).data_dir_spec(),
        !old(state).is_open() ==> r is Err && r->Err_0 == StoreError::NoWorkspace
            && final(state).last_id() == old(state).last_id(),
        old(state).is_open() && old(state).last_id() == u64::MAX ==> r is Err && r->Err_0
            == StoreError::IdsExhausted && final(state).last_id() == old(state).last_id(),
        old(state).is_open() && old(state).last_id() < u64::MAX ==> r is Ok
            && final(state).last_id() == old(state).last_id() + 1,
        r matches Ok(b) ==> {
            &&& b@.id == final(state).last_id()
            &&& b@.block_type == "annotation"@
            &&& b@.created_at == b@.updated_at
            &&& b@.connections == Seq::<u64>::empty()
            &&& b@.content is Annotation
            &&& b@.content->Annotation_0.text == text
            &&& b@.content->Annotation_0.source_file_id == source_file_id
            &&& b@.content->Annotation_0.source_file_name == source_name(
                old(state).cache(),
                source_file_id,
            )
            &&& b@.content->Annotation_0.position == position
            &&& b@.content->Annotation_0.selected_text == selected_text
            &&& b@.content->Annotation_0.annotation_type@ == "note"@
        },
{
    let source_file_name = match source_file_id {
        Some(f) => match state.lookup(f) {
            Some(src) => match &src.content {
                Content::File(fc) => Some(fc.filename.clone()),
                _ => None,
            },
            None => None,
        },
        None => None,
    };
    let content = Content::Annotation(
        AnnotationContent {
            text,
            source_file_id,
            source_file_name,
            position,
            selected_text,
            annotation_type: "note".to_string(),
        },
    );
    create_block(state, "annotation", content)
}

/// Whether `v` is an annotation attached to the file `file_id`, whose block
/// is `file`: either side connects to the other.
pub open spec fn attaches(v: BlockView, file_id: u64, file: BlockView) -> bool {
    v.block_type == "annotation"@ && (v.connections.contains(file_id) || file.connections.contains(
        v.id,
    ))
}

/// The annotations of `s` attached to the file `file_id`, in order.
pub open spec fn attached(s: Seq<BlockView>, file_id: u64, file: BlockView) -> Seq<BlockView>
    decreases s.len(),
{
    if s.len() == 0 {
        Seq::empty()
    } else if attaches(s.last(), file_id, file) {
        attached(s.drop_last(), file_id, file).push(s.last())
    } else {
        attached(s.drop_last(), file_id, file)
    }
}

/// Where an annotation sorts: by its position; those without one go last.
pub open spec fn rank(v: BlockView) -> int {
    match v.content {
        Content::Annotation(a) => match a.position {
            Some(p) => p as int,
            None => u64::MAX as int + 1,
        },
        _ => u64::MAX as int + 1,
    }
}

pub open spec fn ranked(s: Seq<BlockView>) -> bool {
    forall|i: int, j: int| 0 <= i < j < s.len() ==> rank(s[i]) <= rank(s[j])
}

/// The position of an annotation block, if it has one.
pub fn annotation_position(b: &Block) -> (r: Option<u64>)
    ensures
        rank(b@) == match r {
            Some(p) => p as int,
            None => u64::MAX as int + 1,
        },
{
    match &b.content {
        Content::Annotation(a) => a.position,
        _ => None,
    }
}

fn sorts_after(a: Option<u64>, b: Option<u64>) -> (r: bool)
    ensures
        r == (match a {
            Some(p) => p as int,
            None => u64::MAX as int + 1,
        } > match b {
            Some(p) => p as int,
            None => u64::MAX as int + 1,
        }),
{
    match (a, b) {
        (Some(x), Some(y)) => x > y,
        (None, Some(_)) => true,
        _ => false,
    }
}

/// The annotations attached to the file block `file_id`, ordered by
/// position, those without a position last.
pub fn get_file_annotations(state: &AppState, file_id: u64) -> (r: Result<Vec<Block>, StoreError>)
    requires
        state.wf(),
    ensures
        !state.is_open() ==> r is Err && r->Err_0 == StoreError::NoWorkspace,
        state.is_open() && !state.cache().contains_key(file_id) ==> r is Err && r->Err_0
            == StoreError::NotFound(file_id),
        state.is_open() && state.cache().contains_key(file_id) ==> r is Ok,
        r matches Ok(v) ==> ranked(views(v@)) && views(v@).to_multiset() == attached(
            state.entries(),
            file_id,
            state.cache()[file_id],
        ).to_multiset(),
{
    broadcast use vstd::seq_lib::group_to_multiset_ensures, vstd::multiset::group_multiset_axioms;

    if state.data_dir().is_none() {
        return Err(StoreError::NoWorkspace);
    }
    let file = match state.lookup(file_id) {
        Some(b) => b,
        None => {
            return Err(StoreError::NotFound(file_id));
        },
    };
    let all = state.snapshot();
    let ghost s = state.entries();
    let mut r: Vec<Block> = Vec::new();
    let mut i: usize = 0;
    assert(views(r@) =~= Seq::<BlockView>::empty());
    assert(attached(s.subrange(0, 0), file_id, file@) =~= Seq::<BlockView>::empty());
    while i < all.len()
        invariant
            views(all@) == s,
            0 <= i <= all@.len(),
            ranked(views(r@)),
            views(r@).to_multiset() == attached(s.subrange(0, i as int), file_id, file@).to_multiset(),
        decreases all@.len() - i,
    {
        assert(s.subrange(0, i + 1).drop_last() == s.subrange(0, i as int));
        assert(s[i as int] == all@[i as int]@);
        let b = &all[i];
        if b.has_type("annotation") && (contains_id(&b.connections, file_id) || contains_id(
            &file.connections,
            b.id,
        )) {
            let c = b.duplicate();
            let rc = annotation_position(&c);
            let mut j: usize = 0;
            while j < r.len() && !sorts_after(annotation_position(&r[j]), rc)
                invariant
                    0 <= j <= r@.len(),
                    rank(c@) == match rc {
                        Some(p) => p as int,
                        None => u64::MAX as int + 1,
                    },
                    forall|k: int| 0 <= k < j ==> rank(#[trigger] r@[k]@) <= rank(c@),
                decreases r@.len() - j,
            {
                j = j + 1;
            }
            let ghost old_r = views(r@);
            assert forall|k: int| j <= k < old_r.len() implies rank(c@) < rank(#[trigger] old_r[k]) by {
                assert(rank(old_r[j as int]) <= rank(old_r[k]));
            }
            r.insert(j, c);
            assert(views(r@) =~= old_r.insert(j as int, c@));
            assert(attaches(s[i as int], file_id, file@));
            assert(attached(s.subrange(0, i + 1), file_id, file@) == attached(
                s.subrange(0, i as int),
                file_id,
                file@,
            ).push(s[i as int]));
            proof {
                vstd::seq_lib::to_multiset_insert(old_r, j as int, c@);
                vstd::seq_lib::to_multiset_build(
                    attached(s.subrange(0, i as int), file_id, file@),
                    s[i as int],
                );
            }
        } else {
            assert(!attaches(s[i as int], file_id, file@));
            assert(attached(s.subrange(0, i + 1), file_id, file@) == attached(
                s.subrange(0, i as int),
                file_id,
                file@,
            ));
        }
        i = i + 1;
    }
    assert(s.subrange(0, all@.len() as int) == s);
    Ok(r)
}

} // verus!
