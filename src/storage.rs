use vstd::prelude::*;
use crate::model::{Block, BlockView, same_text};
use crate::session::AppState;

verus! {

/// The extension of a path, as `std::path::Path::extension` gives it.
pub uninterp spec fn extension_of(path: Seq<char>) -> Option<Seq<char>>;

/// Relies on std::path::Path::extension: the part of the final component
/// after its last dot, if any.
#[verifier::external_body]
pub(crate) fn path_extension(path: &str) -> (r: Option<String>)
    ensures
        r matches Some(e) ==> extension_of(path@) == Some(e@),
        r is None ==> extension_of(path@) is None,
{
    match std::path::Path::new(path).extension() {
        Some(e) => Some(e.to_string_lossy().into_owned()),
        None => None,
    }
}

pub open spec fn is_code_extension(e: Seq<char>) -> bool {
    e == "rs"@ || e == "ts"@ || e == "js"@ || e == "py"@ || e == "c"@ || e == "cpp"@ || e == "h"@
        || e == "hpp"@ || e == "java"@ || e == "html"@ || e == "css"@ || e == "jsx"@ || e == "tsx"@
}

/// The file category that an extension names.
pub open spec fn category_of(ext: Option<Seq<char>>) -> Seq<char> {
    match ext {
        Some(e) => if e == "pdf"@ {
            "pdf"@
        } else if e == "epub"@ {
            "epub"@
        } else if is_code_extension(e) {
            "code"@
        } else if e == "txt"@ || e == "md"@ {
            "text"@
        } else {
            "other"@
        },
        None => "other"@,
    }
}

fn is_code_ext(e: &str) -> (r: bool)
    ensures
        r == is_code_extension(e@),
{
    same_text(e, "rs") || same_text(e, "ts") || same_text(e, "js") || same_text(e, "py")
        || same_text(e, "c") || same_text(e, "cpp") || same_text(e, "h") || same_text(e, "hpp")
        || same_text(e, "java") || same_text(e, "html") || same_text(e, "css") || same_text(
        e,
        "jsx",
    ) || same_text(e, "tsx")
}

/// The category (`pdf`, `epub`, `code`, `text` or `other`) of a file with
/// extension `ext`.
pub fn file_type_for_extension(ext: Option<&str>) -> (r: String)
    ensures
        r@ == category_of(match ext {
            Some(e) => Some(e@),
            None => None,
        }),
{
    match ext {
        Some(e) => {
            if same_text(e, "pdf") {
                "pdf".to_string()
            } else if same_text(e, "epub") {
                "epub".to_string()
            } else if is_code_ext(e) {
                "code".to_string()
            } else if same_text(e, "txt") || same_text(e, "md") {
                "text".to_string()
            } else {
                "other".to_string()
            }
        },
        None => "other".to_string(),
    }
}

/// The category of the file at `path`, from its extension.
pub fn get_file_type(path: &str) -> (r: String)
    ensures
        r@ == category_of(extension_of(path@)),
{
    match path_extension(path) {
        Some(e) => file_type_for_extension(Some(e.as_str())),
        None => file_type_for_extension(None),
    }
}

pub open spec fn json_suffix() -> Seq<char> {
    seq!['.', 'j', 's', 'o', 'n']
}

pub open spec fn is_digit(c: char) -> bool {
    '0' <= c && c <= '9'
}

pub open spec fn all_digits(s: Seq<char>) -> bool {
    forall|i: int| 0 <= i < s.len() ==> is_digit(#[trigger] s[i])
}

/// The value of a string of decimal digits.
pub open spec fn digits_value(s: Seq<char>) -> nat
    decreases s.len(),
{
    if s.len() == 0 {
        0
    } else {
        (digits_value(s.drop_last()) * 10 + (s.last() as u32 - '0' as u32)) as nat
    }
}

/// The digits of a stem, past an optional leading `+`.
pub open spec fn stem_digits(stem: Seq<char>) -> Seq<char> {
    if stem.len() > 0 && stem[0] == '+' {
        stem.subrange(1, stem.len() as int)
    } else {
        stem
    }
}

/// The identifier that a record file name `<id>.json` gives, if it is one.
pub open spec fn record_id(name: Seq<char>) -> Option<u64> {
    if name.len() >= 5 && name.subrange(name.len() - 5, name.len() as int) == json_suffix() {
        let d = stem_digits(name.subrange(0, name.len() - 5));
        if d.len() > 0 && all_digits(d) && digits_value(d) <= u64::MAX {
            Some(digits_value(d) as u64)
        } else {
            None
        }
    } else {
        None
    }
}

/// The greatest identifier among the record names, 0 when there is none.
pub open spec fn highest_record_id(names: Seq<Seq<char>>) -> u64
    decreases names.len(),
{
    if names.len() == 0 {
        0
    } else {
        let rest = highest_record_id(names.drop_last());
        match record_id(names.last()) {
            Some(id) => if id > rest {
                id
            } else {
                rest
            },
            None => rest,
        }
    }
}

pub proof fn lemma_digits_prefix(s: Seq<char>, k: int)
    requires
        0 <= k <= s.len(),
        all_digits(s),
    ensures
        digits_value(s.subrange(0, k)) <= digits_value(s),
    decreases s.len(),
{
    if k < s.len() {
        assert(s.drop_last().subrange(0, k) == s.subrange(0, k));
        lemma_digits_prefix(s.drop_last(), k);
    } else {
        assert(s.subrange(0, k) == s);
    }
}

/// The identifier that the record file name `name` gives: `<id>.json` with
/// `id` in decimal, an optional `+` before it.
pub fn record_id_of_name(name: &str) -> (r: Option<u64>)
    ensures
        r == record_id(name@),
{
    let n = name.unicode_len();
    if n < 5 {
        return None;
    }
    let e = n - 5;
    if !(name.get_char(e) == '.' && name.get_char(e + 1) == 'j' && name.get_char(e + 2) == 's'
        && name.get_char(e + 3) == 'o' && name.get_char(e + 4) == 'n') {
        assert(name@.subrange(e as int, n as int) != json_suffix()) by {
            let t = name@.subrange(e as int, n as int);
            assert(t[0] == name@[e as int] && t[1] == name@[e + 1] && t[2] == name@[e + 2]
                && t[3] == name@[e + 3] && t[4] == name@[e + 4]);
        }
        return None;
    }
    assert(name@.subrange(e as int, n as int) =~= json_suffix());
    let ghost stem = name@.subrange(0, e as int);
    let start: usize = if e > 0 && name.get_char(0) == '+' {
        1
    } else {
        0
    };
    let ghost d = stem_digits(stem);
    assert(d =~= name@.subrange(start as int, e as int));
    if start == e {
        return None;
    }
    let mut v: u64 = 0;
    let mut i: usize = start;
    while i < e
        invariant
            start <= i <= e,
            e + 5 == n,
            n == name@.len(),
            d == name@.subrange(start as int, e as int),
            d == stem_digits(name@.subrange(0, e as int)),
            name@.subrange(e as int, n as int) == json_suffix(),
            all_digits(name@.subrange(start as int, i as int)),
            v as nat == digits_value(name@.subrange(start as int, i as int)),
        decreases e - i,
    {
        let c = name.get_char(i);
        let ghost p = name@.subrange(start as int, i + 1);
        assert(p.drop_last() == name@.subrange(start as int, i as int));
        if !('0' <= c && c <= '9') {
            assert(!all_digits(d)) by {
                assert(d[i - start] == c);
            }
            return None;
        }
        let w: u128 = (v as u128) * 10 + ((c as u32 - '0' as u32) as u128);
        assert(all_digits(p));
        assert(w as nat == digits_value(p));
        if w > u64::MAX as u128 {
            proof {
                if all_digits(d) {
                    assert(d.subrange(0, i + 1 - start) =~= p);
                    lemma_digits_prefix(d, i + 1 - start);
                }
            }
            return None;
        }
        v = w as u64;
        i = i + 1;
    }
    assert(name@.subrange(start as int, i as int) == d);
    Some(v)
}

/// The text of each name.
pub open spec fn texts(names: Seq<String>) -> Seq<Seq<char>> {
    names.map_values(|s: String| s@)
}

/// The greatest identifier that the record file names give, 0 when none
/// is a record name.
pub fn find_highest_block_id(names: &Vec<String>) -> (r: u64)
    ensures
        r == highest_record_id(texts(names@)),
{
    let mut best: u64 = 0;
    let mut i: usize = 0;
    while i < names.len()
        invariant
            0 <= i <= names@.len(),
            best == highest_record_id(texts(names@.subrange(0, i as int))),
        decreases names@.len() - i,
    {
        assert(texts(names@.subrange(0, i + 1)).drop_last() =~= texts(names@.subrange(0, i as int)));
        assert(texts(names@.subrange(0, i + 1)).last() == names@[i as int]@);
        match record_id_of_name(names[i].as_str()) {
            Some(id) => {
                if id > best {
                    best = id;
                }
            },
            None => {},
        }
        i = i + 1;
    }
    assert(names@.subrange(0, names@.len() as int) =~= names@);
    best
}

/// The cache after inserting, in order, each record that parsed; a later
/// record replaces an earlier one with the same identifier.
pub open spec fn loaded(m: Map<u64, BlockView>, records: Seq<Option<Block>>) -> Map<u64, BlockView>
    decreases records.len(),
{
    if records.len() == 0 {
        m
    } else {
        let rest = loaded(m, records.drop_last());
        match records.last() {
            Some(b) => rest.insert(b.id, b@),
            None => rest,
        }
    }
}

/// The greater of `base` and every identifier among the parsed records.
pub open spec fn top_id(base: u64, records: Seq<Option<Block>>) -> u64
    decreases records.len(),
{
    if records.len() == 0 {
        base
    } else {
        let rest = top_id(base, records.drop_last());
        match records.last() {
            Some(b) => if b.id > rest {
                b.id
            } else {
                rest
            },
            None => rest,
        }
    }
}

/// Caches every record that parsed (`Some`), skipping the others.
pub fn load_blocks_cache(state: &mut AppState, records: &Vec<Option<Block>>)
    requires
        old(state).wf(),
    ensures
        final(state).wf(),
        final(state).cache() == loaded(old(state).cache(), records@),
        final(state).last_id() == top_id(old(state).last_id(), records@),
        final(state).workspace_spec() == old(state).workspace_spec(),
        final(state).data_dir_spec() == old(state).data_dir_spec(),
{
    let ghost m0 = state.cache();
    let ghost l0 = state.last_id();
    let ghost w0 = state.workspace_spec();
    let ghost d0 = state.data_dir_spec();
    let mut i: usize = 0;
    while i < records.len()
        invariant
            0 <= i <= records@.len(),
            state.wf(),
            state.cache() == loaded(m0, records@.subrange(0, i as int)),
            state.last_id() == top_id(l0, records@.subrange(0, i as int)),
            state.workspace_spec() == w0,
            state.data_dir_spec() == d0,
        decreases records@.len() - i,
    {
        assert(records@.subrange(0, i + 1).drop_last() =~= records@.subrange(0, i as int));
        match &records[i] {
            Some(b) => {
                state.cache_block(b.duplicate());
            },
            None => {},
        }
        i = i + 1;
    }
    assert(records@.subrange(0, records@.len() as int) =~= records@);
}

/// Binds the session to the workspace at `workspace_dir`, whose records live
/// under `data_dir`: the previous cache is dropped, the records that parsed
/// are cached, and the allocator resumes above the greatest identifier among
/// the record names and the records.
pub fn select_workspace(
    state: &mut AppState,
    workspace_dir: String,
    data_dir: String,
    record_names: &Vec<String>,
    records: &Vec<Option<Block>>,
)
    ensures
        final(state).wf(),
        final(state).is_open(),
        final(state).workspace_spec() == Some(workspace_dir@),
        final(state).data_dir_spec() == Some(data_dir@),
        final(state).cache() == loaded(Map::empty(), records@),
        final(state).last_id() == top_id(highest_record_id(texts(record_names@)), records@),
{
    let highest = find_highest_block_id(record_names);
    state.open_workspace(workspace_dir, data_dir, highest);
    load_blocks_cache(state, records);
}

} // verus!
