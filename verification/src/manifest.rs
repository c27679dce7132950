//! Reading values out of the TOML-like `*.vapor.toml` manifests.
//!
//! A manifest is read line by line; each line is trimmed of whitespace. A line
//! that starts with `[` and ends with `]` opens a table (`[name]` or
//! `[[name]]`); `name = value` lines inside a table are its entries.
use vstd::prelude::*;
use crate::text::{
    first_pos, lemma_split_concat, lemma_trim_ends, is_ws, lemma_trim_idempotent, trim_lines, lemma_split_after_sep, lemma_split_without_sep, lemma_trim_of_trimmed, trim_end,
    trim_start, chars_eq, chars_of, slice_chars, split_chars, split_on, split_once, split_once_chars, string_of,
    string_views, strip_pair, strip_pair_chars, trim, trim_chars, view_opt, view_opt_string, views,
};

verus! {

/// The lines of a manifest: its text between line feeds. (A carriage return
/// before a line feed is whitespace, which every use trims away.)
pub open spec fn lines_of(source: Seq<char>) -> Seq<Seq<char>> {
    split_on(source, '\n')
}

/// Whether a trimmed line opens a table.
pub open spec fn is_header(line: Seq<char>) -> bool {
    line.len() > 0 && line[0] == '[' && line.last() == ']'
}

/// The table that a header line names: the trimmed text inside `[[ ]]`, or
/// else inside `[ ]`.
pub open spec fn table_name_of(line: Seq<char>) -> Option<Seq<char>> {
    let n = line.len();
    if n >= 4 && line[0] == '[' && line[1] == '[' && line[n - 2] == ']' && line[n - 1] == ']' {
        Some(trim(line.subrange(2, n - 2)))
    } else if n >= 2 && line[0] == '[' && line[n - 1] == ']' {
        Some(trim(line.subrange(1, n - 1)))
    } else {
        None
    }
}

/// The text inside a pair of double quotes.
pub open spec fn unquoted(value: Seq<char>) -> Option<Seq<char>> {
    strip_pair(value, '"', '"')
}

/// The trimmed value of a `name = value` line whose trimmed name is `key`.
pub open spec fn key_value(line: Seq<char>, key: Seq<char>) -> Option<Seq<char>> {
    match split_once(line, '=') {
        Some((name, value)) => if trim(name) == key {
            Some(trim(value))
        } else {
            None
        },
        None => None,
    }
}

/// The first value of `key` in table `section` among `lines`, where
/// `in_section` tells whether the lines start inside that table.
pub open spec fn raw_value_in(
    lines: Seq<Seq<char>>,
    in_section: bool,
    section: Seq<char>,
    key: Seq<char>,
) -> Option<Seq<char>>
    decreases lines.len(),
{
    if lines.len() == 0 {
        None
    } else {
        let line = trim(lines[0]);
        if is_header(line) {
            raw_value_in(lines.drop_first(), table_name_of(line) == Some(section), section, key)
        } else if in_section && key_value(line, key) is Some {
            key_value(line, key)
        } else {
            raw_value_in(lines.drop_first(), in_section, section, key)
        }
    }
}

/// The raw text of the first `key` entry of table `section` in a manifest.
pub open spec fn raw_value_of(source: Seq<char>, section: Seq<char>, key: Seq<char>) -> Option<
    Seq<char>,
> {
    raw_value_in(lines_of(source), false, section, key)
}

/// The quoted string value of the first `key` entry of table `section`:
/// none when that entry is missing or not a quoted string.
pub open spec fn value_of(source: Seq<char>, section: Seq<char>, key: Seq<char>) -> Option<
    Seq<char>,
> {
    match raw_value_of(source, section, key) {
        Some(raw) => unquoted(raw),
        None => None,
    }
}

/// The quoted strings among comma-separated pieces, skipping blank pieces;
/// none when a non-blank piece is not a quoted string.
pub open spec fn array_items(pieces: Seq<Seq<char>>) -> Option<Seq<Seq<char>>>
    decreases pieces.len(),
{
    if pieces.len() == 0 {
        Some(Seq::<Seq<char>>::empty())
    } else {
        match array_items(pieces.drop_last()) {
            None => None,
            Some(items) => {
                let item = trim(pieces.last());
                if item.len() == 0 {
                    Some(items)
                } else {
                    match unquoted(item) {
                        Some(u) => Some(items.push(u)),
                        None => None,
                    }
                }
            },
        }
    }
}

/// The strings of a `key = ["a", "b"]` array entry of table `section`.
pub open spec fn array_of(source: Seq<char>, section: Seq<char>, key: Seq<char>) -> Option<
    Seq<Seq<char>>,
> {
    match raw_value_of(source, section, key) {
        Some(raw) => match strip_pair(raw, '[', ']') {
            Some(inner) => array_items(split_on(inner, ',')),
            None => None,
        },
        None => None,
    }
}

/// The scan for a dependency: `in_dep` tells whether the current table is a
/// dependency table, `id` and `found` are the `id` and `relationship` read in
/// it so far. A table whose relationship matches yields its `id` when the
/// next table starts or the text ends.
pub open spec fn dependency_in(
    lines: Seq<Seq<char>>,
    in_dep: bool,
    id: Option<Seq<char>>,
    found: Option<Seq<char>>,
    deps: Seq<char>,
    relationship: Seq<char>,
) -> Option<Seq<char>>
    decreases lines.len(),
{
    if lines.len() == 0 {
        if in_dep && found == Some(relationship) {
            id
        } else {
            None
        }
    } else {
        let line = trim(lines[0]);
        let rest = lines.drop_first();
        if is_header(line) {
            if in_dep && found == Some(relationship) {
                id
            } else {
                dependency_in(rest, table_name_of(line) == Some(deps), None, None, deps, relationship)
            }
        } else if !in_dep {
            dependency_in(rest, in_dep, id, found, deps, relationship)
        } else {
            match split_once(line, '=') {
                Some((name, value)) => if trim(name) == "id"@ {
                    dependency_in(rest, in_dep, unquoted(trim(value)), found, deps, relationship)
                } else if trim(name) == "relationship"@ {
                    dependency_in(rest, in_dep, id, unquoted(trim(value)), deps, relationship)
                } else {
                    dependency_in(rest, in_dep, id, found, deps, relationship)
                },
                None => dependency_in(rest, in_dep, id, found, deps, relationship),
            }
        }
    }
}

/// The `id` of the `[[parent.dependencies]]` table whose `relationship` is
/// `relationship`.
pub open spec fn dependency_of(source: Seq<char>, parent: Seq<char>, relationship: Seq<char>) -> Option<
    Seq<char>,
> {
    dependency_in(lines_of(source), false, None, None, parent + ".dependencies"@, relationship)
}

/// Once the item list of a prefix of the pieces is refused, so is that of
/// every longer prefix.
proof fn lemma_array_items_none(pieces: Seq<Seq<char>>, j: int)
    requires
        0 <= j <= pieces.len(),
        array_items(pieces.take(j)) is None,
    ensures
        array_items(pieces) is None,
    decreases pieces.len(),
{
    if j == pieces.len() {
        assert(pieces.take(j) =~= pieces);
    } else {
        assert(pieces.drop_last().take(j) =~= pieces.take(j));
        lemma_array_items_none(pieces.drop_last(), j);
    }
}

/// Whether a trimmed line opens a table.
fn is_header_chars(line: &[char]) -> (r: bool)
    ensures
        r == is_header(line@),
{
    line.len() > 0 && line[0] == '[' && line[line.len() - 1] == ']'
}

/// The table that a header line names.
fn table_name_chars(line: &[char]) -> (r: Option<Vec<char>>)
    ensures
        view_opt(r) == table_name_of(line@),
{
    let n = line.len();
    if n >= 4 && line[0] == '[' && line[1] == '[' && line[n - 2] == ']' && line[n - 1] == ']' {
        let inner = slice_chars(line, 2, n - 2);
        Some(trim_chars(&inner))
    } else if n >= 2 && line[0] == '[' && line[n - 1] == ']' {
        let inner = slice_chars(line, 1, n - 1);
        Some(trim_chars(&inner))
    } else {
        None
    }
}

/// The trimmed value of a `name = value` line whose trimmed name is `key`.
fn key_value_chars(line: &[char], key: &[char]) -> (r: Option<Vec<char>>)
    ensures
        view_opt(r) == key_value(line@, key@),
{
    match split_once_chars(line, '=') {
        Some((name, value)) => {
            let name = trim_chars(&name);
            if chars_eq(&name, key) {
                Some(trim_chars(&value))
            } else {
                None
            }
        },
        None => None,
    }
}

/// Whether an optional character vector holds exactly `expected`.
fn opt_chars_eq(o: &Option<Vec<char>>, expected: &[char]) -> (r: bool)
    ensures
        r == (view_opt(*o) == Some(expected@)),
{
    match o {
        Some(v) => chars_eq(v, expected),
        None => false,
    }
}

/// The first value of `key` in table `section` among `lines`.
fn raw_value_lines(lines: &Vec<Vec<char>>, section: &[char], key: &[char]) -> (r: Option<Vec<char>>)
    ensures
        view_opt(r) == raw_value_in(views(lines@), false, section@, key@),
{
    let ghost all = views(lines@);
    let mut in_section = false;
    let mut i: usize = 0;
    assert(all.skip(0) =~= all);
    while i < lines.len()
        invariant
            all == views(lines@),
            i <= lines@.len(),
            raw_value_in(all, false, section@, key@) == raw_value_in(
                all.skip(i as int),
                in_section,
                section@,
                key@,
            ),
        decreases lines@.len() - i,
    {
        assert(all.skip(i as int)[0] == lines@[i as int]@);
        assert(all.skip(i as int).drop_first() =~= all.skip(i + 1));
        let line = trim_chars(&lines[i]);
        if is_header_chars(&line) {
            let name = table_name_chars(&line);
            in_section = opt_chars_eq(&name, section);
        } else if in_section {
            let value = key_value_chars(&line, key);
            if value.is_some() {
                return value;
            }
        }
        i = i + 1;
    }
    None
}

/// The lines of a manifest text.
fn manifest_lines(source: &str) -> (lines: Vec<Vec<char>>)
    ensures
        views(lines@) == lines_of(source@),
{
    let text = chars_of(source);
    split_chars(&text, '\n')
}

/// The text that a header line names: what stands inside `[[ ]]`, or else
/// inside `[ ]`, trimmed; none for a line without brackets.
pub fn table_name(line: &str) -> (r: Option<String>)
    ensures
        view_opt_string(r) == table_name_of(line@),
{
    let cs = chars_of(line);
    match table_name_chars(&cs) {
        Some(name) => Some(string_of(&name)),
        None => None,
    }
}

/// The text inside a pair of double quotes; none when `value` is not quoted.
pub fn unquote(value: &str) -> (r: Option<String>)
    ensures
        view_opt_string(r) == unquoted(value@),
{
    let cs = chars_of(value);
    match strip_pair_chars(&cs, '"', '"') {
        Some(inner) => Some(string_of(&inner)),
        None => None,
    }
}

/// The raw, trimmed text of the first `key` entry of table `section`.
pub fn manifest_raw_value(source: &str, section: &str, key: &str) -> (r: Option<String>)
    ensures
        view_opt_string(r) == raw_value_of(source@, section@, key@),
{
    let lines = manifest_lines(source);
    let section = chars_of(section);
    let key = chars_of(key);
    match raw_value_lines(&lines, &section, &key) {
        Some(v) => Some(string_of(&v)),
        None => None,
    }
}

/// The string value of the first `key` entry of table `section`: none when
/// there is no such entry or its value is not a quoted string.
pub fn manifest_value(source: &str, section: &str, key: &str) -> (r: Option<String>)
    ensures
        view_opt_string(r) == value_of(source@, section@, key@),
{
    let lines = manifest_lines(source);
    let section = chars_of(section);
    let key = chars_of(key);
    match raw_value_lines(&lines, &section, &key) {
        Some(v) => match strip_pair_chars(&v, '"', '"') {
            Some(inner) => Some(string_of(&inner)),
            None => None,
        },
        None => None,
    }
}

/// The quoted strings among comma-separated pieces, or none.
fn array_items_chars(pieces: &Vec<Vec<char>>) -> (r: Option<Vec<String>>)
    ensures
        match r {
            Some(items) => array_items(views(pieces@)) == Some(string_views(items@)),
            None => array_items(views(pieces@)) is None,
        },
{
    let ghost all = views(pieces@);
    let mut out: Vec<String> = Vec::new();
    let mut i: usize = 0;
    assert(all.take(0) =~= Seq::<Seq<char>>::empty());
    assert(string_views(out@) =~= Seq::<Seq<char>>::empty());
    while i < pieces.len()
        invariant
            all == views(pieces@),
            i <= pieces@.len(),
            array_items(all.take(i as int)) == Some(string_views(out@)),
        decreases pieces@.len() - i,
    {
        assert(all.take(i + 1).drop_last() =~= all.take(i as int));
        assert(all.take(i + 1).last() == pieces@[i as int]@);
        let item = trim_chars(&pieces[i]);
        if item.len() > 0 {
            match strip_pair_chars(&item, '"', '"') {
                Some(inner) => {
                    let ghost before = out@;
                    out.push(string_of(&inner));
                    assert(string_views(out@) =~= string_views(before).push(inner@));
                },
                None => {
                    proof {
                        lemma_array_items_none(all, i + 1);
                    }
                    return None;
                },
            }
        }
        i = i + 1;
    }
    assert(all.take(pieces@.len() as int) =~= all);
    Some(out)
}

/// The strings of a `key = ["a", "b"]` array entry of table `section`:
/// none when the entry is missing, is not bracketed, or holds a non-blank
/// item that is not a quoted string. Blank items are skipped.
pub fn manifest_array_strings(source: &str, section: &str, key: &str) -> (r: Option<Vec<String>>)
    ensures
        match r {
            Some(items) => array_of(source@, section@, key@) == Some(string_views(items@)),
            None => array_of(source@, section@, key@) is None,
        },
{
    let lines = manifest_lines(source);
    let section = chars_of(section);
    let key = chars_of(key);
    let value = match raw_value_lines(&lines, &section, &key) {
        Some(v) => v,
        None => return None,
    };
    let inner = match strip_pair_chars(&value, '[', ']') {
        Some(inner) => inner,
        None => return None,
    };
    let pieces = split_chars(&inner, ',');
    array_items_chars(&pieces)
}

/// The `id` of the `[[parent.dependencies]]` table whose `relationship` entry
/// is `relationship`: the first such table, and none when its `id` is missing
/// or not a quoted string.
pub fn manifest_dependency_id(source: &str, parent: &str, relationship: &str) -> (r: Option<String>)
    ensures
        view_opt_string(r) == dependency_of(source@, parent@, relationship@),
{
    let lines = manifest_lines(source);
    let mut deps = chars_of(parent);
    let mut suffix = chars_of(".dependencies");
    deps.append(&mut suffix);
    let rel = chars_of(relationship);
    let id_key = chars_of("id");
    let rel_key = chars_of("relationship");
    let ghost all = views(lines@);
    let ghost d = deps@;
    assert(d == parent@ + ".dependencies"@);
    let mut in_dep = false;
    let mut id: Option<Vec<char>> = None;
    let mut found: Option<Vec<char>> = None;
    let mut i: usize = 0;
    assert(all.skip(0) =~= all);
    while i < lines.len()
        invariant
            all == views(lines@),
            all == lines_of(source@),
            rel@ == relationship@,
            d == parent@ + ".dependencies"@,
            d == deps@,
            id_key@ == "id"@,
            rel_key@ == "relationship"@,
            i <= lines@.len(),
            dependency_in(all, false, None, None, d, rel@) == dependency_in(
                all.skip(i as int),
                in_dep,
                view_opt(id),
                view_opt(found),
                d,
                rel@,
            ),
        decreases lines@.len() - i,
    {
        assert(all.skip(i as int)[0] == lines@[i as int]@);
        assert(all.skip(i as int).drop_first() =~= all.skip(i + 1));
        let line = trim_chars(&lines[i]);
        if is_header_chars(&line) {
            if in_dep && opt_chars_eq(&found, &rel) {
                return match id {
                    Some(v) => Some(string_of(&v)),
                    None => None,
                };
            }
            let name = table_name_chars(&line);
            in_dep = opt_chars_eq(&name, &deps);
            id = None;
            found = None;
        } else if in_dep {
            match split_once_chars(&line, '=') {
                Some((name, value)) => {
                    let name = trim_chars(&name);
                    let value = trim_chars(&value);
                    if chars_eq(&name, &id_key) {
                        id = strip_pair_chars(&value, '"', '"');
                    } else if chars_eq(&name, &rel_key) {
                        found = strip_pair_chars(&value, '"', '"');
                    }
                },
                None => {},
            }
        }
        i = i + 1;
    }
    if in_dep && opt_chars_eq(&found, &rel) {
        match id {
            Some(v) => Some(string_of(&v)),
            None => None,
        }
    } else {
        None
    }
}

/// A manifest's string value is its raw value with the quotes taken off:
/// `manifest_value` and `manifest_raw_value` read the same entry.
pub proof fn lemma_value_is_unquoted_raw(source: Seq<char>, section: Seq<char>, key: Seq<char>)
    ensures
        value_of(source, section, key) == match raw_value_of(source, section, key) {
            Some(raw) => unquoted(raw),
            None => None,
        },
        value_of(source, section, key) is Some ==> raw_value_of(source, section, key) is Some,
{
}

/// Quoting text and unquoting it gives the text back.
pub proof fn lemma_unquote_quoted(s: Seq<char>)
    ensures
        unquoted(seq!['"'] + s + seq!['"']) == Some(s),
{
    let q = seq!['"'] + s + seq!['"'];
    assert(q.subrange(1, q.len() - 1) =~= s);
    assert(q.last() == '"');
}

/// Every header line names a table.
pub proof fn lemma_header_names_table(line: Seq<char>)
    requires
        is_header(line),
    ensures
        table_name_of(line) is Some,
{
    if line.len() == 1 {
        assert(line[0] == line.last());
    }
}

/// The first matching entry wins: lines after it do not change the value.
pub proof fn lemma_first_entry_wins(
    lines: Seq<Seq<char>>,
    more: Seq<Seq<char>>,
    in_section: bool,
    section: Seq<char>,
    key: Seq<char>,
)
    requires
        raw_value_in(lines, in_section, section, key) is Some,
    ensures
        raw_value_in(lines + more, in_section, section, key) == raw_value_in(
            lines,
            in_section,
            section,
            key,
        ),
    decreases lines.len(),
{
    let all = lines + more;
    assert(all[0] == lines[0]);
    assert(all.drop_first() =~= lines.drop_first() + more);
    let line = trim(lines[0]);
    if is_header(line) {
        lemma_first_entry_wins(
            lines.drop_first(),
            more,
            table_name_of(line) == Some(section),
            section,
            key,
        );
    } else if !(in_section && key_value(line, key) is Some) {
        lemma_first_entry_wins(lines.drop_first(), more, in_section, section, key);
    }
}

/// `s` in double quotes.
pub open spec fn quote(s: Seq<char>) -> Seq<char> {
    seq!['"'] + s + seq!['"']
}

/// The items written as a manifest array body: each quoted, separated by
/// `", "`.
pub open spec fn array_text(items: Seq<Seq<char>>) -> Seq<char>
    decreases items.len(),
{
    if items.len() == 0 {
        Seq::<char>::empty()
    } else if items.len() == 1 {
        quote(items[0])
    } else {
        array_text(items.drop_last()) + seq![',', ' '] + quote(items.last())
    }
}

/// A manifest whose table `s` holds one entry `k = [..]` with `items`.
pub open spec fn array_manifest(items: Seq<Seq<char>>) -> Seq<char> {
    seq!['[', 's', ']', '\n', 'k', ' ', '=', ' ', '['] + array_text(items) + seq![']', '\n']
}

/// The comma-separated pieces of an array body.
pub open spec fn array_pieces(items: Seq<Seq<char>>) -> Seq<Seq<char>>
    decreases items.len(),
{
    if items.len() == 0 {
        seq![Seq::<char>::empty()]
    } else if items.len() == 1 {
        seq![quote(items[0])]
    } else {
        array_pieces(items.drop_last()).push(seq![' '] + quote(items.last()))
    }
}

/// Joined text holds `c` only if a part does.
proof fn lemma_concat_free(a: Seq<char>, b: Seq<char>, c: char)
    requires
        !a.contains(c),
        !b.contains(c),
    ensures
        !(a + b).contains(c),
{
    if (a + b).contains(c) {
        let k = choose|k: int| 0 <= k < (a + b).len() && (a + b)[k] == c;
        if k < a.len() {
            assert(a[k] == c);
        } else {
            assert(b[k - a.len()] == c);
        }
    }
}

/// A one-character text holds only that character.
proof fn lemma_single_free(x: char, c: char)
    requires
        x != c,
    ensures
        !seq![x].contains(c),
{
    if seq![x].contains(c) {
        let k = choose|k: int| 0 <= k < seq![x].len() && seq![x][k] == c;
        assert(k == 0);
    }
}

/// Quoting adds no character but the quote.
proof fn lemma_quote_free(s: Seq<char>, c: char)
    requires
        !s.contains(c),
        c != '"',
    ensures
        !quote(s).contains(c),
{
    lemma_single_free('"', c);
    lemma_concat_free(seq!['"'], s, c);
    lemma_concat_free(seq!['"'] + s, seq!['"'], c);
}

/// The array body holds none of the characters that its items lack, but for
/// quotes, commas and spaces.
proof fn lemma_array_text_free(items: Seq<Seq<char>>, c: char)
    requires
        c != '"' && c != ',' && c != ' ',
        forall|i: int| 0 <= i < items.len() ==> !(#[trigger] items[i]).contains(c),
    ensures
        !array_text(items).contains(c),
    decreases items.len(),
{
    if items.len() == 1 {
        lemma_quote_free(items[0], c);
    } else if items.len() > 1 {
        let init = items.drop_last();
        assert(forall|i: int| 0 <= i < init.len() ==> #[trigger] init[i] == items[i]);
        lemma_array_text_free(init, c);
        assert(items[items.len() - 1] == items.last());
        lemma_quote_free(items.last(), c);
        lemma_single_free(',', c);
        lemma_single_free(' ', c);
        lemma_concat_free(seq![','], seq![' '], c);
        assert(seq![','] + seq![' '] =~= seq![',', ' ']);
        lemma_concat_free(array_text(init), seq![',', ' '], c);
        lemma_concat_free(array_text(init) + seq![',', ' '], quote(items.last()), c);
    } else {
        assert(!Seq::<char>::empty().contains(c));
    }
}

/// Splitting an array body at commas gives the quoted items.
proof fn lemma_split_array_text(items: Seq<Seq<char>>)
    requires
        forall|i: int| 0 <= i < items.len() ==> !(#[trigger] items[i]).contains(','),
    ensures
        split_on(array_text(items), ',') == array_pieces(items),
    decreases items.len(),
{
    if items.len() == 0 {
        assert(split_on(Seq::<char>::empty(), ',') =~= seq![Seq::<char>::empty()]);
    } else if items.len() == 1 {
        lemma_quote_free(items[0], ',');
        lemma_split_without_sep(quote(items[0]), ',');
    } else {
        let init = items.drop_last();
        assert(forall|i: int| 0 <= i < init.len() ==> #[trigger] init[i] == items[i]);
        lemma_split_array_text(init);
        assert(items[items.len() - 1] == items.last());
        let tail = seq![' '] + quote(items.last());
        lemma_quote_free(items.last(), ',');
        lemma_single_free(' ', ',');
        lemma_concat_free(seq![' '], quote(items.last()), ',');
        lemma_split_after_sep(array_text(init), tail, ',');
        assert(array_text(init).push(',') + tail =~= array_text(items));
    }
}

/// Quoted text is its own trim.
proof fn lemma_trim_quote(s: Seq<char>)
    ensures
        trim(quote(s)) == quote(s),
        trim(seq![' '] + quote(s)) == quote(s),
{
    let q = quote(s);
    assert(q[0] == '"');
    assert(q.last() == '"');
    lemma_trim_of_trimmed(q);
    let sq = seq![' '] + q;
    assert(sq[0] == ' ');
    assert(sq.drop_first() =~= q);
    assert(trim_start(sq) == trim_start(q));
}

/// The quoted pieces of an array body read back as the items.
proof fn lemma_array_items_pieces(items: Seq<Seq<char>>)
    ensures
        array_items(array_pieces(items)) == Some(items),
    decreases items.len(),
{
    if items.len() == 0 {
        let p = seq![Seq::<char>::empty()];
        assert(array_pieces(items) == p);
        assert(p.drop_last() =~= Seq::<Seq<char>>::empty());
        assert(p.last() =~= Seq::<char>::empty());
        assert(trim(Seq::<char>::empty()) =~= Seq::<char>::empty());
        assert(array_items(Seq::<Seq<char>>::empty()) == Some(Seq::<Seq<char>>::empty()));
        assert(array_items(p) == Some(Seq::<Seq<char>>::empty()));
        assert(items =~= Seq::<Seq<char>>::empty());
    } else if items.len() == 1 {
        let p = seq![quote(items[0])];
        assert(array_pieces(items) == p);
        assert(p.drop_last() =~= Seq::<Seq<char>>::empty());
        assert(p.last() == quote(items[0]));
        assert(quote(items[0]).len() >= 2);
        lemma_trim_quote(items[0]);
        lemma_unquote_quoted(items[0]);
        assert(array_items(Seq::<Seq<char>>::empty()) == Some(Seq::<Seq<char>>::empty()));
        assert(array_items(p) == Some(Seq::<Seq<char>>::empty().push(items[0])));
        assert(Seq::<Seq<char>>::empty().push(items[0]) =~= items);
    } else {
        let init = items.drop_last();
        lemma_array_items_pieces(init);
        lemma_trim_quote(items.last());
        lemma_unquote_quoted(items.last());
        assert(array_pieces(items).drop_last() =~= array_pieces(init));
        assert(array_pieces(items).last() == seq![' '] + quote(items.last()));
        assert(quote(items.last()).len() >= 2);
        assert(array_items(array_pieces(items)) == Some(init.push(items.last())));
        assert(init.push(items.last()) =~= items);
    }
}

/// Writing quoted items into `k = [..]` in table `s` and reading the array
/// back gives the items again, when no item holds a comma or a line feed.
pub proof fn lemma_array_round_trip(items: Seq<Seq<char>>)
    requires
        forall|i: int|
            0 <= i < items.len() ==> !(#[trigger] items[i]).contains(',') && !items[i].contains(
                '\n',
            ),
    ensures
        array_of(array_manifest(items), seq!['s'], seq!['k']) == Some(items),
{
    let t = array_text(items);
    let a = seq!['[', 's', ']'];
    let b = seq!['k', ' ', '=', ' ', '['] + t + seq![']'];
    assert(array_manifest(items) =~= (a.push('\n') + b).push('\n') + Seq::<char>::empty());
    // The text has three lines: the header, the entry, and an empty tail.
    assert forall|i: int| 0 <= i < items.len() implies !(#[trigger] items[i]).contains('\n') by {}
    lemma_array_text_free(items, '\n');
    lemma_single_free('k', '\n');
    lemma_single_free(']', '\n');
    assert(!seq!['k', ' ', '=', ' ', '['].contains('\n')) by {
        if seq!['k', ' ', '=', ' ', '['].contains('\n') {
            let k = choose|k: int| 0 <= k < 5 && seq!['k', ' ', '=', ' ', '['][k] == '\n';
        }
    }
    lemma_concat_free(seq!['k', ' ', '=', ' ', '['], t, '\n');
    lemma_concat_free(seq!['k', ' ', '=', ' ', '['] + t, seq![']'], '\n');
    assert(!Seq::<char>::empty().contains('\n'));
    lemma_split_after_sep(a.push('\n') + b, Seq::<char>::empty(), '\n');
    lemma_split_after_sep(a, b, '\n');
    assert(!a.contains('\n')) by {
        if a.contains('\n') {
            let k = choose|k: int| 0 <= k < 3 && a[k] == '\n';
        }
    }
    lemma_split_without_sep(a, '\n');
    let lines = seq![a, b, Seq::<char>::empty()];
    assert(lines_of(array_manifest(items)) =~= lines);
    // The header opens table `s`.
    lemma_trim_of_trimmed(a);
    lemma_trim_of_trimmed(seq!['s']);
    assert(a.subrange(1, 2) =~= seq!['s']);
    assert(table_name_of(a) == Some(seq!['s']));
    // The entry line reads as key `k` with the bracketed body.
    assert(b[0] == 'k');
    assert(b.last() == ']');
    lemma_trim_of_trimmed(b);
    assert(b.drop_first()[0] == ' ');
    assert(b.drop_first().drop_first()[0] == '=');
    assert(first_pos(b.drop_first().drop_first(), '=') == 0);
    assert(first_pos(b.drop_first(), '=') == 1);
    assert(first_pos(b, '=') == 2);
    let name = b.take(2);
    let value = b.skip(3);
    assert(name =~= seq!['k', ' ']);
    assert(trim_end(seq!['k', ' ']) == trim_end(seq!['k'])) by {
        assert(seq!['k', ' '].drop_last() =~= seq!['k']);
    }
    assert(trim(name) == seq!['k']) by {
        lemma_trim_of_trimmed(seq!['k']);
    }
    let body = seq!['['] + t + seq![']'];
    assert(value =~= seq![' '] + body);
    assert(body[0] == '[');
    assert(body.last() == ']');
    lemma_trim_of_trimmed(body);
    assert((seq![' '] + body).drop_first() =~= body);
    assert(trim_start(seq![' '] + body) == trim_start(body));
    assert(trim(value) == body);
    assert(key_value(b, seq!['k']) == Some(body));
    let rest2 = lines.drop_first();
    assert(rest2[0] == b);
    assert(raw_value_in(rest2, true, seq!['s'], seq!['k']) == Some(body));
    assert(lines.drop_first() =~= rest2);
    assert(raw_value_of(array_manifest(items), seq!['s'], seq!['k']) == Some(body));
    // The body holds the quoted items.
    assert(body.subrange(1, body.len() - 1) =~= t);
    assert(strip_pair(body, '[', ']') == Some(t));
    lemma_split_array_text(items);
    lemma_array_items_pieces(items);
}

/// Whitespace around a line does not change the value read from it.
pub proof fn lemma_raw_value_ignores_padding(
    lines: Seq<Seq<char>>,
    in_section: bool,
    section: Seq<char>,
    key: Seq<char>,
)
    ensures
        raw_value_in(lines, in_section, section, key) == raw_value_in(
            trim_lines(lines),
            in_section,
            section,
            key,
        ),
    decreases lines.len(),
{
    if lines.len() > 0 {
        let t = trim_lines(lines);
        assert(t[0] == trim(lines[0]));
        lemma_trim_idempotent(lines[0]);
        assert(t.drop_first() =~= trim_lines(lines.drop_first()));
        let line = trim(lines[0]);
        lemma_raw_value_ignores_padding(
            lines.drop_first(),
            table_name_of(line) == Some(section),
            section,
            key,
        );
        lemma_raw_value_ignores_padding(lines.drop_first(), in_section, section, key);
    }
}

/// Whitespace around a line does not change the dependency read.
pub proof fn lemma_dependency_ignores_padding(
    lines: Seq<Seq<char>>,
    in_dep: bool,
    id: Option<Seq<char>>,
    found: Option<Seq<char>>,
    deps: Seq<char>,
    relationship: Seq<char>,
)
    ensures
        dependency_in(lines, in_dep, id, found, deps, relationship) == dependency_in(
            trim_lines(lines),
            in_dep,
            id,
            found,
            deps,
            relationship,
        ),
    decreases lines.len(),
{
    if lines.len() > 0 {
        let t = trim_lines(lines);
        assert(t[0] == trim(lines[0]));
        lemma_trim_idempotent(lines[0]);
        assert(t.drop_first() =~= trim_lines(lines.drop_first()));
        let line = trim(lines[0]);
        let rest = lines.drop_first();
        lemma_dependency_ignores_padding(
            rest,
            table_name_of(line) == Some(deps),
            None,
            None,
            deps,
            relationship,
        );
        lemma_dependency_ignores_padding(rest, in_dep, id, found, deps, relationship);
        match split_once(line, '=') {
            Some((name, value)) => {
                lemma_dependency_ignores_padding(
                    rest,
                    in_dep,
                    unquoted(trim(value)),
                    found,
                    deps,
                    relationship,
                );
                lemma_dependency_ignores_padding(
                    rest,
                    in_dep,
                    id,
                    unquoted(trim(value)),
                    deps,
                    relationship,
                );
            },
            None => {},
        }
    }
}

/// Whitespace around an array item does not change the items read.
pub proof fn lemma_array_items_ignore_padding(pieces: Seq<Seq<char>>)
    ensures
        array_items(pieces) == array_items(trim_lines(pieces)),
    decreases pieces.len(),
{
    if pieces.len() > 0 {
        let t = trim_lines(pieces);
        assert(t.drop_last() =~= trim_lines(pieces.drop_last()));
        assert(t.last() == trim(pieces.last()));
        lemma_trim_idempotent(pieces.last());
        lemma_array_items_ignore_padding(pieces.drop_last());
    }
}

/// Two manifests whose lines differ only in surrounding whitespace (such as
/// the carriage returns of CRLF line endings) say the same: the same raw
/// values, string values, arrays and dependencies.
pub proof fn lemma_manifest_ignores_line_padding(
    a: Seq<char>,
    b: Seq<char>,
    section: Seq<char>,
    key: Seq<char>,
    relationship: Seq<char>,
)
    requires
        lines_of(a).len() == lines_of(b).len(),
        forall|i: int|
            0 <= i < lines_of(a).len() ==> trim(#[trigger] lines_of(a)[i]) == trim(lines_of(b)[i]),
    ensures
        raw_value_of(a, section, key) == raw_value_of(b, section, key),
        value_of(a, section, key) == value_of(b, section, key),
        array_of(a, section, key) == array_of(b, section, key),
        dependency_of(a, section, relationship) == dependency_of(b, section, relationship),
{
    assert(trim_lines(lines_of(a)) =~= trim_lines(lines_of(b)));
    lemma_raw_value_ignores_padding(lines_of(a), false, section, key);
    lemma_raw_value_ignores_padding(lines_of(b), false, section, key);
    let deps = section + ".dependencies"@;
    lemma_dependency_ignores_padding(lines_of(a), false, None, None, deps, relationship);
    lemma_dependency_ignores_padding(lines_of(b), false, None, None, deps, relationship);
}

/// A dependency found in some lines stays found whatever table header and
/// further lines follow them.
proof fn lemma_dependency_kept_at_header(
    lines: Seq<Seq<char>>,
    header: Seq<char>,
    more: Seq<Seq<char>>,
    in_dep: bool,
    id: Option<Seq<char>>,
    found: Option<Seq<char>>,
    deps: Seq<char>,
    relationship: Seq<char>,
)
    requires
        dependency_in(lines, in_dep, id, found, deps, relationship) is Some,
        is_header(trim(header)),
    ensures
        dependency_in(lines + (seq![header] + more), in_dep, id, found, deps, relationship)
            == dependency_in(lines, in_dep, id, found, deps, relationship),
    decreases lines.len(),
{
    let all = lines + (seq![header] + more);
    if lines.len() == 0 {
        assert(all =~= seq![header] + more);
        assert(all[0] == header);
    } else {
        assert(all[0] == lines[0]);
        assert(all.drop_first() =~= lines.drop_first() + (seq![header] + more));
        let line = trim(lines[0]);
        let rest = lines.drop_first();
        if is_header(line) {
            if !(in_dep && found == Some(relationship)) {
                lemma_dependency_kept_at_header(
                    rest,
                    header,
                    more,
                    table_name_of(line) == Some(deps),
                    None,
                    None,
                    deps,
                    relationship,
                );
            }
        } else if !in_dep {
            lemma_dependency_kept_at_header(rest, header, more, in_dep, id, found, deps, relationship);
        } else {
            match split_once(line, '=') {
                Some((name, value)) => {
                    if trim(name) == "id"@ {
                        lemma_dependency_kept_at_header(
                            rest,
                            header,
                            more,
                            in_dep,
                            unquoted(trim(value)),
                            found,
                            deps,
                            relationship,
                        );
                    } else if trim(name) == "relationship"@ {
                        lemma_dependency_kept_at_header(
                            rest,
                            header,
                            more,
                            in_dep,
                            id,
                            unquoted(trim(value)),
                            deps,
                            relationship,
                        );
                    } else {
                        lemma_dependency_kept_at_header(
                            rest,
                            header,
                            more,
                            in_dep,
                            id,
                            found,
                            deps,
                            relationship,
                        );
                    }
                },
                None => {
                    lemma_dependency_kept_at_header(
                        rest,
                        header,
                        more,
                        in_dep,
                        id,
                        found,
                        deps,
                        relationship,
                    );
                },
            }
        }
    }
}

/// Appending any table after a manifest text whose dependency was found
/// keeps that dependency: the matched table's `id` is given whatever header
/// comes next.
pub proof fn lemma_dependency_survives_next_table(
    text: Seq<char>,
    header: Seq<char>,
    rest: Seq<char>,
    parent: Seq<char>,
    relationship: Seq<char>,
)
    requires
        dependency_of(text, parent, relationship) is Some,
        !header.contains('\n'),
        is_header(trim(header)),
    ensures
        dependency_of(text.push('\n') + header.push('\n') + rest, parent, relationship)
            == dependency_of(text, parent, relationship),
{
    let whole = text.push('\n') + header.push('\n') + rest;
    assert(whole =~= text.push('\n') + (header.push('\n') + rest));
    lemma_split_concat(text, header.push('\n') + rest, '\n');
    lemma_split_concat(header, rest, '\n');
    lemma_split_without_sep(header, '\n');
    assert(lines_of(whole) =~= lines_of(text) + (seq![header] + lines_of(rest)));
    lemma_dependency_kept_at_header(
        lines_of(text),
        header,
        lines_of(rest),
        false,
        None,
        None,
        parent + ".dependencies"@,
        relationship,
    );
}

/// Text of lines, each ended by a line feed.
pub open spec fn lines_text(ls: Seq<Seq<char>>) -> Seq<char>
    decreases ls.len(),
{
    if ls.len() == 0 {
        Seq::<char>::empty()
    } else {
        ls[0].push('\n') + lines_text(ls.drop_first())
    }
}

/// A header line `[name]`.
pub open spec fn header_line(name: Seq<char>) -> Seq<char> {
    seq!['['] + name + seq![']']
}

/// A dependency header line `[[parent.dependencies]]`.
pub open spec fn dependency_header_line(parent: Seq<char>) -> Seq<char> {
    seq!['[', '['] + parent + ".dependencies"@ + seq![']', ']']
}

/// An entry line `key = "value"`.
pub open spec fn entry_line(key: Seq<char>, value: Seq<char>) -> Seq<char> {
    key + seq![' ', '=', ' '] + quote(value)
}

/// Lines ended by line feeds read back as those lines and an empty tail.
proof fn lemma_lines_of_lines_text(ls: Seq<Seq<char>>)
    requires
        forall|i: int| 0 <= i < ls.len() ==> !(#[trigger] ls[i]).contains('\n'),
    ensures
        lines_of(lines_text(ls)) == ls.push(Seq::<char>::empty()),
    decreases ls.len(),
{
    if ls.len() == 0 {
        assert(split_on(Seq::<char>::empty(), '\n') =~= seq![Seq::<char>::empty()]);
        assert(ls.push(Seq::<char>::empty()) =~= seq![Seq::<char>::empty()]);
    } else {
        let rest = ls.drop_first();
        assert(forall|i: int| 0 <= i < rest.len() ==> #[trigger] rest[i] == ls[i + 1]);
        lemma_lines_of_lines_text(rest);
        lemma_split_concat(ls[0], lines_text(rest), '\n');
        lemma_split_without_sep(ls[0], '\n');
        assert(seq![ls[0]] + rest.push(Seq::<char>::empty()) =~= ls.push(Seq::<char>::empty()));
    }
}

/// Where `x` lacks `c`, the first `c` in `x + y` is the first in `y`, moved.
proof fn lemma_first_pos_concat(x: Seq<char>, y: Seq<char>, c: char)
    requires
        !x.contains(c),
    ensures
        first_pos(x + y, c) == x.len() + first_pos(y, c),
    decreases x.len(),
{
    if x.len() > 0 {
        assert(x[0] != c);
        assert((x + y)[0] == x[0]);
        assert((x + y).drop_first() =~= x.drop_first() + y);
        assert(!x.drop_first().contains(c)) by {
            if x.drop_first().contains(c) {
                let k = choose|k: int| 0 <= k < x.drop_first().len() && x.drop_first()[k] == c;
                assert(x[k + 1] == c);
            }
        }
        lemma_first_pos_concat(x.drop_first(), y, c);
    } else {
        assert(x + y =~= y);
    }
}

/// A trimmed non-empty key with a space after it trims back to the key.
proof fn lemma_trim_key_space(key: Seq<char>)
    requires
        key.len() > 0,
        trim(key) == key,
    ensures
        trim(key.push(' ')) == key,
        !is_ws(key[0]),
{
    lemma_trim_ends(key);
    let kp = key.push(' ');
    assert(kp[0] == key[0]);
    assert(trim_start(kp) == kp);
    assert(kp.drop_last() =~= key);
    assert(trim_end(key) == key);
}

/// An entry line is its own trim, is no header, and holds its key with the
/// quoted value.
pub proof fn lemma_entry_line(key: Seq<char>, value: Seq<char>)
    requires
        key.len() > 0,
        trim(key) == key,
        !key.contains('='),
    ensures
        trim(entry_line(key, value)) == entry_line(key, value),
        !is_header(entry_line(key, value)),
        split_once(entry_line(key, value), '=') == Some((key.push(' '), seq![' '] + quote(value))),
        key_value(entry_line(key, value), key) == Some(quote(value)),
{
    let l = entry_line(key, value);
    lemma_trim_key_space(key);
    assert(l[0] == key[0]);
    assert(l.last() == '"');
    lemma_trim_of_trimmed(l);
    assert(l =~= key + (seq![' ', '=', ' '] + quote(value)));
    lemma_first_pos_concat(key, seq![' ', '=', ' '] + quote(value), '=');
    let tail = seq![' ', '=', ' '] + quote(value);
    assert(tail[0] == ' ');
    assert(tail.drop_first()[0] == '=');
    assert(first_pos(tail.drop_first(), '=') == 0);
    assert(first_pos(tail, '=') == 1);
    assert(l.take(key.len() + 1int) =~= key.push(' '));
    assert(l.skip(key.len() + 2int) =~= seq![' '] + quote(value));
    lemma_trim_quote(value);
}

/// A header line `[name]` opens table `name`, when `name` is trimmed and
/// does not itself read as `[..]`.
pub proof fn lemma_header_line(name: Seq<char>)
    requires
        trim(name) == name,
        !(name.len() >= 2 && name[0] == '[' && name.last() == ']'),
    ensures
        trim(header_line(name)) == header_line(name),
        is_header(header_line(name)),
        table_name_of(header_line(name)) == Some(name),
{
    let h = header_line(name);
    assert(h[0] == '[');
    assert(h.last() == ']');
    lemma_trim_of_trimmed(h);
    assert(h.subrange(1, h.len() - 1) =~= name);
    if name.len() >= 2 {
        assert(h[1] == name[0]);
        assert(h[h.len() - 2] == name.last());
    }
}

/// A table `[section]` with the entry `key = "value"` reads back `value`.
pub proof fn lemma_value_of_entry(section: Seq<char>, key: Seq<char>, value: Seq<char>)
    requires
        trim(section) == section,
        !(section.len() >= 2 && section[0] == '[' && section.last() == ']'),
        !section.contains('\n'),
        key.len() > 0,
        trim(key) == key,
        !key.contains('='),
        !key.contains('\n'),
        !value.contains('\n'),
    ensures
        value_of(lines_text(seq![header_line(section), entry_line(key, value)]), section, key)
            == Some(value),
        raw_value_of(lines_text(seq![header_line(section), entry_line(key, value)]), section, key)
            == Some(quote(value)),
{
    let h = header_line(section);
    let e = entry_line(key, value);
    let ls = seq![h, e];
    assert(!h.contains('\n')) by {
        if h.contains('\n') {
            let k = choose|k: int| 0 <= k < h.len() && h[k] == '\n';
            if 1 <= k < h.len() - 1 {
                assert(section[k - 1] == '\n');
            }
        }
    }
    assert(!e.contains('\n')) by {
        if e.contains('\n') {
            let k = choose|k: int| 0 <= k < e.len() && e[k] == '\n';
            if k < key.len() {
                assert(key[k] == '\n');
            } else if k >= key.len() + 4 && k < e.len() - 1 {
                assert(value[k - key.len() - 4] == '\n');
            }
        }
    }
    assert(ls[0] == h && ls[1] == e);
    lemma_lines_of_lines_text(ls);
    lemma_header_line(section);
    lemma_entry_line(key, value);
    let lines = ls.push(Seq::<char>::empty());
    assert(lines.drop_first()[0] == e);
    assert(raw_value_in(lines.drop_first(), true, section, key) == Some(quote(value)));
    lemma_unquote_quoted(value);
}

/// A `[[parent.dependencies]]` table with `id = "id"` and
/// `relationship = "relationship"` gives `id`.
pub proof fn lemma_dependency_of_table(parent: Seq<char>, id: Seq<char>, relationship: Seq<char>)
    requires
        trim(parent) == parent,
        !parent.contains('\n'),
        !id.contains('\n'),
        !relationship.contains('\n'),
    ensures
        dependency_of(
            lines_text(
                seq![
                    dependency_header_line(parent),
                    entry_line("id"@, id),
                    entry_line("relationship"@, relationship),
                ],
            ),
            parent,
            relationship,
        ) == Some(id),
{
    reveal_strlit("id");
    reveal_strlit("relationship");
    reveal_strlit(".dependencies");
    let deps = parent + ".dependencies"@;
    let h = dependency_header_line(parent);
    let e1 = entry_line("id"@, id);
    let e2 = entry_line("relationship"@, relationship);
    // The header opens the dependency table.
    lemma_trim_ends(parent);
    assert(deps.last() == 's');
    assert(deps[0] == if parent.len() > 0 { parent[0] } else { '.' });
    lemma_trim_of_trimmed(deps);
    assert(h =~= seq!['[', '['] + deps + seq![']', ']']);
    assert(h[0] == '[' && h[1] == '[');
    assert(h[h.len() - 2] == ']' && h.last() == ']');
    lemma_trim_of_trimmed(h);
    assert(h.subrange(2, h.len() - 2) =~= deps);
    assert(table_name_of(h) == Some(deps));
    // The entries.
    assert(!"id"@.contains('=')) by {
        if "id"@.contains('=') {
            let k = choose|k: int| 0 <= k < 2 && "id"@[k] == '=';
        }
    }
    assert(!"relationship"@.contains('=')) by {
        if "relationship"@.contains('=') {
            let k = choose|k: int| 0 <= k < 12 && "relationship"@[k] == '=';
        }
    }
    lemma_trim_of_trimmed("id"@);
    lemma_trim_of_trimmed("relationship"@);
    lemma_entry_line("id"@, id);
    lemma_entry_line("relationship"@, relationship);
    lemma_trim_key_space("id"@);
    lemma_trim_key_space("relationship"@);
    assert("id"@ != "relationship"@) by {
        assert("id"@.len() != "relationship"@.len());
    }
    lemma_unquote_quoted(id);
    lemma_unquote_quoted(relationship);
    lemma_trim_quote(id);
    lemma_trim_quote(relationship);
    // No line holds a line feed.
    assert(!h.contains('\n')) by {
        if h.contains('\n') {
            let k = choose|k: int| 0 <= k < h.len() && h[k] == '\n';
            if 2 <= k < 2 + parent.len() {
                assert(parent[k - 2] == '\n');
            } else if 2 + parent.len() <= k < h.len() - 2 {
                assert(deps[k - 2] == '\n');
            }
        }
    }
    assert(!e1.contains('\n')) by {
        if e1.contains('\n') {
            let k = choose|k: int| 0 <= k < e1.len() && e1[k] == '\n';
            if 6 <= k < e1.len() - 1 {
                assert(id[k - 6] == '\n');
            }
        }
    }
    assert(!e2.contains('\n')) by {
        if e2.contains('\n') {
            let k = choose|k: int| 0 <= k < e2.len() && e2[k] == '\n';
            if 16 <= k < e2.len() - 1 {
                assert(relationship[k - 16] == '\n');
            }
        }
    }
    let ls = seq![h, e1, e2];
    assert(ls[0] == h && ls[1] == e1 && ls[2] == e2);
    lemma_lines_of_lines_text(ls);
    let lines = ls.push(Seq::<char>::empty());
    let r1 = lines.drop_first();
    let r2 = r1.drop_first();
    let r3 = r2.drop_first();
    let r4 = r3.drop_first();
    assert(r1[0] == e1);
    assert(r2[0] == e2);
    assert(r3[0] == Seq::<char>::empty());
    assert(r4.len() == 0);
    assert(trim(Seq::<char>::empty()) =~= Seq::<char>::empty());
    assert(split_once(Seq::<char>::empty(), '=') is None);
    assert(dependency_in(r4, true, Some(id), Some(relationship), deps, relationship) == Some(id));
    assert(dependency_in(r3, true, Some(id), Some(relationship), deps, relationship) == Some(id));
    assert(dependency_in(r2, true, Some(id), None, deps, relationship) == Some(id));
    assert(dependency_in(r1, true, None, None, deps, relationship) == Some(id));
}

/// Only quoted text unquotes, and unquoting takes off exactly the quotes.
pub proof fn lemma_unquoted_shape(value: Seq<char>)
    ensures
        unquoted(value) matches Some(inner) ==> value == quote(inner),
{
    if let Some(inner) = unquoted(value) {
        assert(value =~= quote(inner));
    }
}

} // verus!
