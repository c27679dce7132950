//! Content ids (`studio/collection/name`) and the file-system paths built
//! from them. Paths are held as text; joining, parents and extensions go
//! through std's `Path`.
use vstd::prelude::*;
use crate::text::{
    chars_of, contains_chars, contains_seq, replace_char, replace_chars, slice_chars, split_chars,
    split_on, string_of, view_opt_string, views,
};

verus! {

/// The non-empty pieces among `parts`, in order.
pub open spec fn keep_nonempty(parts: Seq<Seq<char>>) -> Seq<Seq<char>>
    decreases parts.len(),
{
    if parts.len() == 0 {
        Seq::<Seq<char>>::empty()
    } else {
        let kept = keep_nonempty(parts.drop_last());
        if parts.last().len() > 0 {
            kept.push(parts.last())
        } else {
            kept
        }
    }
}

/// The components of a content id: its non-empty `/`-separated parts.
pub open spec fn id_parts(id: Seq<char>) -> Seq<Seq<char>> {
    keep_nonempty(split_on(id, '/'))
}

/// The path that collecting `parts` into a `PathBuf` builds: starting from
/// the empty path, each part is pushed in turn (`Path::join`).
pub open spec fn collect_path(parts: Seq<Seq<char>>) -> Seq<char>
    decreases parts.len(),
{
    if parts.len() == 0 {
        Seq::<char>::empty()
    } else {
        spec_path_join(collect_path(parts.drop_last()), parts.last())
    }
}

/// The relative path of a content id: its components collected into a path.
pub open spec fn id_path_of(id: Seq<char>) -> Seq<char> {
    collect_path(id_parts(id))
}

/// The text after the last `c` in `s`, or all of `s` when there is none.
pub open spec fn after_last(s: Seq<char>, c: char) -> Seq<char>
    decreases s.len(),
{
    if s.len() == 0 {
        s
    } else if s.last() == c {
        Seq::<char>::empty()
    } else {
        after_last(s.drop_last(), c).push(s.last())
    }
}

/// What `std::path::Path::parent` gives for a path: the path without its
/// last component, or none.
pub uninterp spec fn spec_path_parent(path: Seq<char>) -> Option<Seq<char>>;

/// What `std::path::Path::join` gives for a base path and a path to
/// adjoin to it.
pub uninterp spec fn spec_path_join(base: Seq<char>, rel: Seq<char>) -> Seq<char>;

/// What `std::path::Path::extension` gives for a path: the text after the
/// last dot of its file name, or none.
pub uninterp spec fn spec_path_extension(path: Seq<char>) -> Option<Seq<char>>;

/// `std::path::Path::parent`. The contract names its result; of it, it
/// states only what std documents: the empty path and the root `/` have no
/// parent. The
/// component rules (repeated and trailing separators, `.` components, roots)
/// are std's and are not restated here.
#[verifier::external_body]
pub(crate) fn path_parent(path: &str) -> (parent: Option<String>)
    ensures
        view_opt_string(parent) == spec_path_parent(path@),
        path@.len() == 0 ==> parent is None,
        path@ == seq!['/'] ==> parent is None,
{
    match std::path::Path::new(path).parent() {
        Some(p) => Some(p.to_string_lossy().into_owned()),
        None => None,
    }
}

/// `std::path::Path::extension`. The contract names its result; of it, it
/// states only what std documents: a path without a `.` has no extension.
/// The rules for file names (leading dots, `..`, trailing separators) are
/// std's and are not restated here.
#[verifier::external_body]
pub(crate) fn path_extension(path: &str) -> (ext: Option<String>)
    ensures
        view_opt_string(ext) == spec_path_extension(path@),
        !path@.contains('.') ==> ext is None,
{
    match std::path::Path::new(path).extension() {
        Some(e) => Some(e.to_string_lossy().into_owned()),
        None => None,
    }
}

/// `std::path::Path::join`: `rel` adjoined to `base` with the platform's
/// separator, or `rel` alone where it is absolute. The contract names the
/// result; the separator and the rules for absolute paths and prefixes are
/// the platform's and are not restated here.
#[verifier::external_body]
pub(crate) fn path_join(base: &str, rel: &str) -> (joined: String)
    ensures
        joined@ == spec_path_join(base@, rel@),
{
    std::path::Path::new(base).join(rel).to_string_lossy().into_owned()
}

/// `a` followed by `b`.
pub fn concat_chars(a: &[char], b: &[char]) -> (r: Vec<char>)
    ensures
        r@ == a@ + b@,
{
    let mut r = slice_chars(a, 0, a.len());
    let mut tail = slice_chars(b, 0, b.len());
    assert(a@.subrange(0, a@.len() as int) =~= a@);
    assert(b@.subrange(0, b@.len() as int) =~= b@);
    r.append(&mut tail);
    r
}

/// The relative path of a content id: its non-empty `/`-separated parts
/// collected into a path.
pub fn id_path(id: &str) -> (r: String)
    ensures
        r@ == id_path_of(id@),
{
    let cs = chars_of(id);
    let parts = split_chars(&cs, '/');
    let ghost all = views(parts@);
    let mut out = String::new();
    let mut i: usize = 0;
    assert(all.take(0) =~= Seq::<Seq<char>>::empty());
    while i < parts.len()
        invariant
            all == views(parts@),
            all == split_on(id@, '/'),
            i <= parts@.len(),
            out@ == collect_path(keep_nonempty(all.take(i as int))),
        decreases parts@.len() - i,
    {
        assert(all.take(i + 1).drop_last() =~= all.take(i as int));
        assert(all.take(i + 1).last() == parts@[i as int]@);
        if parts[i].len() > 0 {
            let ghost kept_before = keep_nonempty(all.take(i as int));
            let part = string_of(&parts[i]);
            out = path_join(out.as_str(), part.as_str());
            assert(keep_nonempty(all.take(i + 1)) == kept_before.push(parts@[i as int]@));
            assert(kept_before.push(parts@[i as int]@).drop_last() =~= kept_before);
        }
        i = i + 1;
    }
    assert(all.take(parts@.len() as int) =~= all);
    out
}

/// The last component of a content id: the text after its last `/`.
pub fn short_id(id: &str) -> (r: String)
    ensures
        r@ == after_last(id@, '/'),
        r@ == split_on(id@, '/').last(),
{
    let cs = chars_of(id);
    let n = cs.len();
    let mut j: usize = n;
    assert(cs@.take(n as int) =~= cs@);
    assert(cs@.subrange(n as int, n as int) =~= Seq::<char>::empty());
    while j > 0 && cs[j - 1] != '/'
        invariant
            n == cs@.len(),
            j <= n,
            after_last(cs@, '/') == after_last(cs@.take(j as int), '/') + cs@.subrange(
                j as int,
                n as int,
            ),
        decreases j,
    {
        assert(cs@.take(j as int).drop_last() =~= cs@.take(j - 1));
        assert(cs@.subrange(j - 1, n as int) =~= seq![cs@[j - 1]] + cs@.subrange(
            j as int,
            n as int,
        ));
        assert(after_last(cs@.take(j - 1), '/').push(cs@[j - 1]) + cs@.subrange(j as int, n as int)
            =~= after_last(cs@.take(j - 1), '/') + cs@.subrange(j - 1, n as int));
        j = j - 1;
    }
    proof {
        lemma_split_last_is_after_last(id@, '/');
    }
    let tail = slice_chars(&cs, j, n);
    string_of(&tail)
}

/// The last piece of a split is the text after the last separator.
pub proof fn lemma_split_last_is_after_last(s: Seq<char>, c: char)
    ensures
        split_on(s, c).last() == after_last(s, c),
    decreases s.len(),
{
    crate::text::lemma_split_on_nonempty(s, c);
    if s.len() > 0 {
        lemma_split_last_is_after_last(s.drop_last(), c);
        crate::text::lemma_split_on_nonempty(s.drop_last(), c);
    }
}

/// The platform's file name for the library `stem` on `target`.
pub open spec fn platform_file_name(stem: Seq<char>, target: Seq<char>) -> Seq<char> {
    if contains_seq(target, "darwin"@) || contains_seq(target, "apple"@) {
        "lib"@ + stem + ".dylib"@
    } else if contains_seq(target, "windows"@) {
        stem + ".dll"@
    } else {
        "lib"@ + replace_char(stem, '-', '_') + ".so"@
    }
}

/// The file name of a runtime library for a target: a stem that already has
/// an extension is kept; Apple targets get `lib<stem>.dylib`, Windows targets
/// `<stem>.dll`, and other targets `lib<stem>.so` with `-` turned into `_`.
pub open spec fn library_file_name_of(stem: Seq<char>, target: Seq<char>) -> Seq<char> {
    if spec_path_extension(stem) is Some {
        stem
    } else {
        platform_file_name(stem, target)
    }
}

/// The file name of the runtime library `stem` for `target`, given whether
/// `stem` already has an extension.
pub fn library_file_name_for(stem: &str, target: &str, has_extension: bool) -> (r: String)
    ensures
        r@ == if has_extension {
            stem@
        } else {
            platform_file_name(stem@, target@)
        },
{
    let s = chars_of(stem);
    if has_extension {
        return string_of(&s);
    }
    let t = chars_of(target);
    let darwin = chars_of("darwin");
    let apple = chars_of("apple");
    let windows = chars_of("windows");
    if contains_chars(&t, &darwin) || contains_chars(&t, &apple) {
        let pre = chars_of("lib");
        let post = chars_of(".dylib");
        let a = concat_chars(&pre, &s);
        let b = concat_chars(&a, &post);
        string_of(&b)
    } else if contains_chars(&t, &windows) {
        let post = chars_of(".dll");
        let b = concat_chars(&s, &post);
        string_of(&b)
    } else {
        let pre = chars_of("lib");
        let post = chars_of(".so");
        let body = replace_chars(&s, '-', '_');
        let a = concat_chars(&pre, &body);
        let b = concat_chars(&a, &post);
        string_of(&b)
    }
}

/// The file name of the runtime library `stem` for `target`.
pub fn library_file_name(stem: &str, target: &str) -> (r: String)
    ensures
        r@ == library_file_name_of(stem@, target@),
        !stem@.contains('.') ==> r@ == platform_file_name(stem@, target@),
{
    let has_extension = path_extension(stem).is_some();
    library_file_name_for(stem, target, has_extension)
}

} // verus!
