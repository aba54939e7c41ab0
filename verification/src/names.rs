//! File names: cleaning what a phone sends, fallbacks for headers, and names
//! that do not clash.

use crate::decimal::{push_decimal, push_padded};
use crate::text::{chars_of, is_ascii_alphanumeric, is_control_code, string_of, trim};
use vstd::prelude::*;

verus! {

/// The largest number that is appended to a file name to make it unique.
pub const MAX_NUMBER: u32 = 2147483647;

/// A character that separates the components of a path on some system.
pub open spec fn separator(c: char) -> bool {
    c == '/' || c == '\\'
}

/// What follows the last separator of a path.
pub open spec fn last_segment(s: Seq<char>) -> Seq<char>
    decreases s.len(),
{
    if s.len() == 0 || separator(s.last()) {
        Seq::empty()
    } else {
        last_segment(s.drop_last()).push(s.last())
    }
}

/// A character that some file system forbids in a file name.
pub open spec fn forbidden(c: char) -> bool {
    ||| crate::text::control_code(c)
    ||| c == '<'
    ||| c == '>'
    ||| c == ':'
    ||| c == '"'
    ||| c == '/'
    ||| c == '\\'
    ||| c == '|'
    ||| c == '?'
    ||| c == '*'
}

/// The character itself, or an underscore in place of a forbidden one.
pub open spec fn cleaned_char(c: char) -> char {
    if forbidden(c) {
        '_'
    } else {
        c
    }
}

/// A text with an underscore in place of each forbidden character.
pub open spec fn cleaned(s: Seq<char>) -> Seq<char> {
    s.map_values(|c: char| cleaned_char(c))
}

/// A name that stands for a directory and not for a file in it.
pub open spec fn dots(s: Seq<char>) -> bool {
    s == seq!['.'] || s == seq!['.', '.']
}

/// The file name under which a file that was announced as `raw` is saved.
pub open spec fn sanitized(raw: Seq<char>) -> Seq<char> {
    let name = crate::text::trimmed(cleaned(crate::text::trimmed(last_segment(raw))));
    if name.len() == 0 || dots(name) {
        "unnamed"@
    } else {
        name
    }
}

/// A name that is a single component of a path on every system.
pub open spec fn plain_name(s: Seq<char>) -> bool {
    &&& s.len() > 0
    &&& !dots(s)
    &&& forall|i: int| 0 <= i < s.len() ==> !separator(#[trigger] s[i]) && s[i] != ':'
}

fn is_forbidden(c: char) -> (r: bool)
    ensures
        r == forbidden(c),
{
    is_control_code(c) || c == '<' || c == '>' || c == ':' || c == '"' || c == '/' || c == '\\' || c
        == '|' || c == '?' || c == '*'
}

fn segment_of(raw: &str) -> (r: String)
    ensures
        r@ == last_segment(raw@),
{
    let chars = chars_of(raw);
    let mut from: usize = chars.len();
    assert(raw@.take(from as int) =~= raw@);
    assert(raw@.skip(from as int) =~= Seq::<char>::empty());
    assert(last_segment(raw@.take(from as int)) + raw@.skip(from as int) =~= last_segment(raw@));
    while from > 0 && chars[from - 1] != '/' && chars[from - 1] != '\\'
        invariant
            from <= chars@.len(),
            chars@ == raw@,
            last_segment(raw@.take(from as int)) + raw@.skip(from as int) == last_segment(raw@),
        decreases from,
    {
        let ghost head = raw@.take(from as int);
        assert(head.drop_last() =~= raw@.take(from - 1));
        assert(last_segment(raw@.take(from - 1)) + raw@.skip(from - 1) =~= last_segment(head)
            + raw@.skip(from as int));
        from = from - 1;
    }
    assert(last_segment(raw@.take(from as int)) =~= Seq::<char>::empty());
    assert(raw@.skip(from as int) =~= last_segment(raw@));
    let len = chars.len();
    let r = string_of(&chars, from, len);
    assert(r@ =~= raw@.skip(from as int));
    r
}

fn clean(s: &str) -> (r: String)
    ensures
        r@ == cleaned(s@),
{
    let mut r = String::new();
    for c in it: s.chars()
        invariant
            it.seq() == s@,
            r@ == cleaned(s@).take(it.index() as int),
    {
        if is_forbidden(c) {
            r.push('_');
        } else {
            r.push(c);
        }
        assert(r@ =~= cleaned(s@).take(it.index() + 1));
    }
    assert(cleaned(s@).take(s@.len() as int) =~= cleaned(s@));
    r
}

fn is_dots(s: &str) -> (r: bool)
    ensures
        r == dots(s@),
{
    let chars = chars_of(s);
    let r = (chars.len() == 1 && chars[0] == '.') || (chars.len() == 2 && chars[0] == '.'
        && chars[1] == '.');
    proof {
        if r {
            if s@.len() == 1 {
                assert(s@ =~= seq!['.']);
            } else {
                assert(s@ =~= seq!['.', '.']);
            }
        }
    }
    r
}

/// Cleans a file name: what stands before the last separator goes, forbidden
/// characters become underscores, and white space at the ends goes. Where nothing
/// usable is left the name is `unnamed`.
pub fn sanitize_filename(raw: &str) -> (r: String)
    ensures
        r@ == sanitized(raw@),
{
    let base = trim(segment_of(raw).as_str());
    let name = trim(clean(base.as_str()).as_str());
    if name.as_str().is_empty() || is_dots(name.as_str()) {
        "unnamed".to_string()
    } else {
        name
    }
}

/// A character that needs no quoting in a header.
pub open spec fn header_safe(c: char) -> bool {
    crate::text::ascii_alphanumeric(c) || c == '.' || c == '-' || c == '_'
}

/// A name with an underscore in place of each character that is not header-safe.
pub open spec fn ascii_fallback(name: Seq<char>) -> Seq<char> {
    name.map_values(
        |c: char|
            if header_safe(c) {
                c
            } else {
                '_'
            },
    )
}

/// An ASCII stand-in for a file name.
pub fn ascii_filename(name: &str) -> (r: String)
    ensures
        r@ == ascii_fallback(name@),
{
    let mut r = String::new();
    for c in it: name.chars()
        invariant
            it.seq() == name@,
            r@ == ascii_fallback(name@).take(it.index() as int),
    {
        if is_ascii_alphanumeric(c) || c == '.' || c == '-' || c == '_' {
            r.push(c);
        } else {
            r.push('_');
        }
        assert(r@ =~= ascii_fallback(name@).take(it.index() + 1));
    }
    assert(ascii_fallback(name@).take(name@.len() as int) =~= ascii_fallback(name@));
    r
}

/// The position of the last dot, or -1 where there is none.
pub open spec fn last_dot(s: Seq<char>) -> int
    decreases s.len(),
{
    if s.len() == 0 {
        -1
    } else if s.last() == '.' {
        s.len() - 1
    } else {
        last_dot(s.drop_last())
    }
}

/// The file name before its last dot; the whole name where it has no dot but
/// possibly a leading one.
pub open spec fn stem_part(name: Seq<char>) -> Seq<char> {
    if has_extension(name) {
        name.take(last_dot(name))
    } else {
        name
    }
}

/// The file name after its last dot, where that is not the leading one.
pub open spec fn extension_part(name: Seq<char>) -> Option<Seq<char>> {
    if has_extension(name) {
        Some(name.skip(last_dot(name) + 1))
    } else {
        None
    }
}

/// Whether a name has a dot other than a leading one.
pub open spec fn has_extension(name: Seq<char>) -> bool {
    last_dot(name) > 0
}

/// A file name with a number between its stem and its extension.
pub open spec fn numbered(stem: Seq<char>, extension: Option<Seq<char>>, i: nat) -> Seq<char> {
    stem + " ("@ + crate::decimal::decimal(i) + after_number(extension)
}

/// What follows the number in a numbered file name.
pub open spec fn after_number(extension: Option<Seq<char>>) -> Seq<char> {
    match extension {
        Some(e) if e.len() > 0 => ")."@ + e,
        _ => ")"@,
    }
}

/// The names that are tried in turn: the name itself, then its numbered forms.
pub open spec fn candidate(
    name: Seq<char>,
    stem: Seq<char>,
    extension: Option<Seq<char>>,
    i: nat,
) -> Seq<char> {
    if i == 0 {
        name
    } else {
        numbered(stem, extension, i)
    }
}

/// The view of an optional string.
pub open spec fn option_view(s: Option<String>) -> Option<Seq<char>> {
    match s {
        Some(t) => Some(t@),
        None => None,
    }
}

/// Whether asking `taken` about the name `probe` may give `answer`.
pub open spec fn answers<F: Fn(&String) -> bool>(
    taken: F,
    probe: Seq<char>,
    answer: bool,
) -> bool {
    exists|p: String| p@ == probe && call_ensures(taken, (&p,), answer)
}

/// Whether `found` is the first candidate that `taken` reported as free. There is
/// none where `taken` reported every candidate as taken.
pub open spec fn first_free<F: Fn(&String) -> bool>(
    name: Seq<char>,
    stem: Seq<char>,
    extension: Option<Seq<char>>,
    taken: F,
    found: Option<Seq<char>>,
) -> bool {
    match found {
        Some(n) => exists|i: nat|
            {
                &&& i <= MAX_NUMBER
                &&& n == #[trigger] candidate(name, stem, extension, i)
                &&& answers(taken, n, false)
                &&& forall|j: nat|
                    j < i ==> answers(taken, #[trigger] candidate(name, stem, extension, j), true)
            },
        None => forall|j: nat|
            j <= MAX_NUMBER ==> answers(
                taken,
                #[trigger] candidate(name, stem, extension, j),
                true,
            ),
    }
}

fn numbered_name(stem: &String, extension: &Option<String>, i: u32) -> (r: String)
    ensures
        r@ == numbered(stem@, option_view(*extension), i as nat),
{
    let mut r = stem.clone();
    r.append(" (");
    push_decimal(&mut r, i as u64);
    match extension {
        Some(e) => {
            if e.as_str().is_empty() {
                r.append(")");
            } else {
                r.append(").");
                r.append(e.as_str());
            }
        },
        None => {
            r.append(")");
        },
    }
    assert(r@ =~= numbered(stem@, option_view(*extension), i as nat));
    r
}

/// The first name that is not taken: the name itself, or else the form with the
/// smallest number between the stem and the extension.
pub fn unique_name<F: Fn(&String) -> bool>(
    name: &str,
    stem: &String,
    extension: &Option<String>,
    taken: F,
) -> (r: Option<String>)
    requires
        forall|p: String| call_requires(taken, (&p,)),
    ensures
        first_free(name@, stem@, option_view(*extension), taken, option_view(r)),
{
    let ghost ext = option_view(*extension);
    let plain = name.to_string();
    if !taken(&plain) {
        assert(answers(taken, candidate(name@, stem@, ext, 0), false));
        return Some(plain);
    }
    assert(answers(taken, candidate(name@, stem@, ext, 0), true));
    let mut i: u32 = 1;
    loop
        invariant
            1 <= i <= MAX_NUMBER,
            ext == option_view(*extension),
            forall|p: String| call_requires(taken, (&p,)),
            forall|j: nat|
                j < i ==> answers(taken, #[trigger] candidate(name@, stem@, ext, j), true),
        decreases MAX_NUMBER - i,
    {
        let next = numbered_name(stem, extension, i);
        assert(next@ == candidate(name@, stem@, ext, i as nat));
        if !taken(&next) {
            return Some(next);
        }
        assert(answers(taken, candidate(name@, stem@, ext, i as nat), true));
        if i == MAX_NUMBER {
            return None;
        }
        i = i + 1;
    }
}

/// `Path::file_stem` of a name. For a name that is a single component of a path on
/// every system it is what stands before the last dot, and the whole name where
/// there is no dot but possibly a leading one. Nothing is said of other names:
/// which characters separate components depends on the system.
#[verifier::external_body]
fn path_file_stem(name: &str) -> (r: Option<String>)
    ensures
        plain_name(name@) ==> option_view(r) == Some(stem_part(name@)),
{
    Some(std::path::Path::new(name).file_stem()?.to_string_lossy().into_owned())
}

/// `Path::extension` of a name. For a name that is a single component of a path on
/// every system it is what stands after the last dot, and absent where there is no
/// dot but possibly a leading one. Nothing is said of other names: which
/// characters separate components depends on the system.
#[verifier::external_body]
fn path_extension(name: &str) -> (r: Option<String>)
    ensures
        plain_name(name@) ==> option_view(r) == extension_part(name@),
{
    Some(std::path::Path::new(name).extension()?.to_string_lossy().into_owned())
}

/// A path whose components are told the same way on every system: it holds
/// neither a backslash nor a colon and does not start with two slashes.
pub open spec fn portable_path(path: Seq<char>) -> bool {
    &&& forall|i: int| 0 <= i < path.len() ==> #[trigger] path[i] != '\\' && path[i] != ':'
    &&& !(path.len() >= 2 && path[0] == '/' && path[1] == '/')
}

/// A portable path that ends in a plain name.
pub open spec fn simple_path(path: Seq<char>) -> bool {
    portable_path(path) && plain_name(last_segment(path))
}

/// A portable path that ends in two dots.
pub open spec fn parent_path(path: Seq<char>) -> bool {
    portable_path(path) && last_segment(path) == seq!['.', '.']
}

/// `Path::file_name` of a path. For a path whose components are told the same way
/// on every system it is the last component where that is a plain name, and absent
/// where the path ends in two dots. Nothing is said of other paths: where their
/// components start depends on the system.
#[verifier::external_body]
fn path_file_name(path: &str) -> (r: Option<String>)
    ensures
        simple_path(path@) ==> option_view(r) == Some(last_segment(path@)),
        parent_path(path@) ==> r is None,
{
    Some(std::path::Path::new(path).file_name()?.to_string_lossy().into_owned())
}

/// Whether `component` is what the system tells to be the last component of a path.
pub closed spec fn last_component(path: &str, component: Option<Seq<char>>) -> bool {
    exists|c: Option<String>| #[trigger]
        call_ensures(path_file_name, (path,), c) && option_view(c) == component
}

/// The last component of a path, where it has one that is a name.
pub(crate) fn file_name_of(path: &str) -> (r: Option<String>)
    ensures
        last_component(path, option_view(r)),
        simple_path(path@) ==> option_view(r) == Some(last_segment(path@)),
        parent_path(path@) ==> r is None,
{
    path_file_name(path)
}

/// Whether `stem` and `extension` are what the system tells to be the stem and the
/// extension of a name. A name without a stem is its own.
pub closed spec fn splits(name: &str, stem: Seq<char>, extension: Option<Seq<char>>) -> bool {
    &&& exists|s: Option<String>| #[trigger]
        call_ensures(path_file_stem, (name,), s) && stem == (match s {
            Some(t) => t@,
            None => name@,
        })
    &&& exists|e: Option<String>| #[trigger]
        call_ensures(path_extension, (name,), e) && option_view(e) == extension
}

/// A name for a new file in a directory: `name` itself where `taken` reports it as
/// free, or else the first of its numbered forms that is free, as `a (1).txt` for
/// `a.txt`. There is none where `taken` reports all of them as taken. Where the stem
/// of a name ends depends on the system for names that are no single component; for
/// those it ends where the system tells.
pub fn unique_path<F: Fn(&String) -> bool>(name: &str, taken: F) -> (r: Option<String>)
    requires
        forall|p: String| call_requires(taken, (&p,)),
    ensures
        plain_name(name@) ==> first_free(
            name@,
            stem_part(name@),
            extension_part(name@),
            taken,
            option_view(r),
        ),
        exists|stem: Seq<char>, extension: Option<Seq<char>>|
            {
                &&& #[trigger] splits(name, stem, extension)
                &&& first_free(name@, stem, extension, taken, option_view(r))
            },
{
    let found = path_file_stem(name);
    let ghost told = found;
    let stem = match found {
        Some(s) => s,
        None => name.to_string(),
    };
    let extension = path_extension(name);
    assert(splits(name, stem@, option_view(extension))) by {
        assert(call_ensures(path_file_stem, (name,), told));
        assert(call_ensures(path_extension, (name,), extension));
    }
    unique_name(name, &stem, &extension, taken)
}

/// The name of the file that holds one chunk of an upload.
pub open spec fn chunk_name(index: nat) -> Seq<char> {
    crate::decimal::padded(index, 8) + ".part"@
}

/// The name of the file that holds one chunk of an upload.
pub fn chunk_file_name(index: usize) -> (r: String)
    ensures
        r@ == chunk_name(index as nat),
{
    let mut r = String::new();
    push_padded(&mut r, index as u64, 8);
    r.append(".part");
    assert(r@ =~= chunk_name(index as nat));
    r
}

proof fn lemma_last_segment_fixed(s: Seq<char>)
    requires
        forall|i: int| 0 <= i < s.len() ==> !separator(#[trigger] s[i]),
    ensures
        last_segment(s) == s,
    decreases s.len(),
{
    if s.len() > 0 {
        assert forall|i: int| 0 <= i < s.drop_last().len() implies !separator(
            #[trigger] s.drop_last()[i],
        ) by {
            assert(s.drop_last()[i] == s[i]);
        }
        lemma_last_segment_fixed(s.drop_last());
        assert(s.drop_last().push(s.last()) =~= s);
    } else {
        assert(s =~= Seq::<char>::empty());
    }
}

/// A sanitized name is a single component of a path on every system: it is not
/// empty, names no directory, holds no separator, no forbidden character and no
/// control code, and neither starts nor ends with white space.
pub proof fn law_sanitized_is_safe(raw: Seq<char>)
    ensures
        plain_name(sanitized(raw)),
        forall|i: int| 0 <= i < sanitized(raw).len() ==> !forbidden(#[trigger] sanitized(raw)[i]),
        !crate::text::white_space(sanitized(raw)[0]),
        !crate::text::white_space(sanitized(raw).last()),
{
    reveal_strlit("unnamed");
    let base = crate::text::trimmed(last_segment(raw));
    let name = crate::text::trimmed(cleaned(base));
    let ends = crate::text::lemma_trimmed_is_stretch(cleaned(base));
    crate::text::lemma_trimmed_ends(cleaned(base));
    assert forall|i: int| 0 <= i < name.len() implies !forbidden(#[trigger] name[i]) by {
        assert(name[i] == cleaned_char(base[ends.0 + i]));
    }
    assert("unnamed"@.len() == 7 && seq!['.'].len() == 1 && seq!['.', '.'].len() == 2);
    assert forall|i: int| 0 <= i < sanitized(raw).len() implies !forbidden(
        #[trigger] sanitized(raw)[i],
    ) by {}
}

/// Sanitizing a name a second time changes nothing.
pub proof fn law_sanitize_idempotent(raw: Seq<char>)
    ensures
        sanitized(sanitized(raw)) == sanitized(raw),
{
    law_sanitized_is_safe(raw);
    let name = sanitized(raw);
    lemma_last_segment_fixed(name);
    crate::text::lemma_trimmed_fixed(name);
    assert(cleaned(name) =~= name);
}

/// A name that is already safe is kept as it is.
pub proof fn law_sanitize_keeps_safe_names(name: Seq<char>)
    requires
        plain_name(name),
        forall|i: int| 0 <= i < name.len() ==> !forbidden(#[trigger] name[i]),
        !crate::text::white_space(name[0]),
        !crate::text::white_space(name.last()),
    ensures
        sanitized(name) == name,
{
    lemma_last_segment_fixed(name);
    crate::text::lemma_trimmed_fixed(name);
    assert(cleaned(name) =~= name);
}

/// What stands before a separator never reaches the saved name.
pub proof fn law_sanitize_drops_directories(directory: Seq<char>, name: Seq<char>, c: char)
    requires
        separator(c),
    ensures
        sanitized(directory.push(c) + name) == sanitized(name),
{
    lemma_last_segment_after(directory.push(c), name);
}

proof fn lemma_last_segment_after(head: Seq<char>, name: Seq<char>)
    requires
        head.len() > 0,
        separator(head.last()),
    ensures
        last_segment(head + name) == last_segment(name),
    decreases name.len(),
{
    let whole = head + name;
    if name.len() == 0 {
        assert(whole =~= head);
    } else {
        assert(whole.drop_last() =~= head + name.drop_last());
        lemma_last_segment_after(head, name.drop_last());
    }
}

/// The stand-in for a header is as long as the name, header-safe throughout, and
/// the name itself where that is header-safe.
pub proof fn law_ascii_fallback_safe(name: Seq<char>)
    ensures
        ascii_fallback(name).len() == name.len(),
        forall|i: int|
            0 <= i < name.len() ==> header_safe(#[trigger] ascii_fallback(name)[i]) && (header_safe(
                name[i],
            ) ==> ascii_fallback(name)[i] == name[i]),
        ascii_fallback(ascii_fallback(name)) == ascii_fallback(name),
{
    assert(ascii_fallback(ascii_fallback(name)) =~= ascii_fallback(name));
}

proof fn lemma_numbered_tail(stem: Seq<char>, extension: Option<Seq<char>>, i: nat, j: nat)
    requires
        numbered(stem, extension, i) == numbered(stem, extension, j),
    ensures
        crate::decimal::decimal(i) == crate::decimal::decimal(j),
{
    let (di, dj) = (crate::decimal::decimal(i), crate::decimal::decimal(j));
    let a = numbered(stem, extension, i);
    let b = numbered(stem, extension, j);
    let from = (stem + " ("@).len() as int;
    assert(a.len() == from + di.len() + after_number(extension).len());
    assert(b.len() == from + dj.len() + after_number(extension).len());
    assert(a.subrange(from, from + di.len()) =~= di);
    assert(b.subrange(from, from + dj.len()) =~= dj);
}

/// Different numbers give different names.
pub proof fn law_numbered_distinct(
    stem: Seq<char>,
    extension: Option<Seq<char>>,
    i: nat,
    j: nat,
)
    requires
        i != j,
    ensures
        numbered(stem, extension, i) != numbered(stem, extension, j),
{
    if numbered(stem, extension, i) == numbered(stem, extension, j) {
        lemma_numbered_tail(stem, extension, i, j);
        crate::decimal::law_decimal_injective(i, j);
    }
}

proof fn lemma_last_dot(s: Seq<char>)
    ensures
        -1 <= last_dot(s) < s.len(),
        last_dot(s) >= 0 ==> s[last_dot(s)] == '.',
        forall|i: int| last_dot(s) < i < s.len() ==> s[i] != '.',
    decreases s.len(),
{
    if s.len() > 0 && s.last() != '.' {
        lemma_last_dot(s.drop_last());
        assert forall|i: int| last_dot(s) < i < s.len() implies s[i] != '.' by {
            if i < s.len() - 1 {
                assert(s.drop_last()[i] == s[i]);
            }
        }
    }
}

proof fn lemma_last_dot_is(s: Seq<char>, at: int)
    requires
        0 <= at < s.len(),
        s[at] == '.',
        forall|i: int| at < i < s.len() ==> s[i] != '.',
    ensures
        last_dot(s) == at,
{
    lemma_last_dot(s);
}

/// The name of a chunk file splits into the padded number and the extension.
pub proof fn law_chunk_name_splits(index: nat)
    ensures
        plain_name(chunk_name(index)),
        stem_part(chunk_name(index)) == crate::decimal::padded(index, 8),
        extension_part(chunk_name(index)) == Some("part"@),
{
    reveal_strlit(".part");
    reveal_strlit("part");
    let d = crate::decimal::padded(index, 8);
    let name = chunk_name(index);
    crate::decimal::law_padded_value(index, 8);
    assert forall|i: int| 0 <= i < name.len() implies !separator(#[trigger] name[i]) && name[i]
        != ':' by {
        if i < d.len() {
            assert(name[i] == d[i]);
            assert(crate::decimal::is_digit(d[i]));
        } else {
            assert(name[i] == ".part"@[i - d.len()]);
        }
    }
    lemma_last_dot_is(name, d.len() as int);
    assert(name.take(d.len() as int) =~= d);
    assert(name.skip(d.len() as int + 1) =~= "part"@);
}

/// The number of a chunk is read back from the name of its file.
pub proof fn law_chunk_name_reads_back(index: usize)
    ensures
        crate::decimal::parsed_usize(stem_part(chunk_name(index as nat))) == Some(index),
{
    law_chunk_name_splits(index as nat);
    crate::decimal::law_parse_reads_back(index, 8);
}

/// Different chunks are held in differently named files.
pub proof fn law_chunk_names_distinct(i: usize, j: usize)
    requires
        i != j,
    ensures
        chunk_name(i as nat) != chunk_name(j as nat),
{
    law_chunk_name_reads_back(i);
    law_chunk_name_reads_back(j);
}

/// Every candidate for a plain name is a plain name, so that it stays in the
/// directory.
pub proof fn law_candidates_stay_plain(name: Seq<char>, i: nat)
    requires
        plain_name(name),
    ensures
        plain_name(candidate(name, stem_part(name), extension_part(name), i)),
{
    if i > 0 {
        reveal_strlit(" (");
        reveal_strlit(")");
        reveal_strlit(").");
        lemma_last_dot(name);
        crate::decimal::law_decimal_value(i);
        let stem = stem_part(name);
        let d = crate::decimal::decimal(i);
        let tail = after_number(extension_part(name));
        let c = numbered(stem, extension_part(name), i);
        assert(c.len() == stem.len() + 2 + d.len() + tail.len());
        assert(tail.len() >= 1);
        assert(seq!['.'].len() == 1 && seq!['.', '.'].len() == 2);
        assert forall|k: int| 0 <= k < c.len() implies !separator(#[trigger] c[k]) && c[k]
            != ':' by {
            if k < stem.len() {
                assert(c[k] == name[k]);
            } else if k < stem.len() + 2 {
                assert(c[k] == " ("@[k - stem.len()]);
            } else if k < stem.len() + 2 + d.len() {
                assert(c[k] == d[k - stem.len() - 2]);
                assert(crate::decimal::is_digit(d[k - stem.len() - 2]));
            } else {
                let t = k - stem.len() - 2 - d.len();
                assert(c[k] == tail[t]);
                match extension_part(name) {
                    Some(e) if e.len() > 0 => {
                        if t >= 2 {
                            assert(tail[t] == e[t - 2]);
                            assert(e[t - 2] == name[last_dot(name) + 1 + t - 2]);
                        } else {
                            assert(tail[t] == ")."@[t]);
                        }
                    },
                    _ => {
                        assert(tail[t] == ")"@[t]);
                    },
                }
            }
        }
    }
}

/// A numbered name keeps the extension of the name, unless that is empty.
pub proof fn law_numbered_keeps_extension(name: Seq<char>, i: nat)
    requires
        extension_part(name) matches Some(e) && e.len() > 0,
    ensures
        extension_part(numbered(stem_part(name), extension_part(name), i)) == extension_part(name),
{
    reveal_strlit(").");
    lemma_last_dot(name);
    let e = extension_part(name)->0;
    let head = stem_part(name) + " ("@ + crate::decimal::decimal(i);
    let c = numbered(stem_part(name), extension_part(name), i);
    let at = head.len() as int + 1;
    assert(c =~= head + ")."@ + e);
    assert(c[at] == ")."@[1]);
    assert forall|k: int| at < k < c.len() implies c[k] != '.' by {
        assert(c[k] == e[k - at - 1]);
        assert(e[k - at - 1] == name[last_dot(name) + 1 + (k - at - 1)]);
    }
    lemma_last_dot_is(c, at);
    assert(c.skip(at + 1) =~= e);
}

/// The candidates for a name are all different.
pub proof fn law_candidates_distinct(name: Seq<char>, i: nat, j: nat)
    requires
        i != j,
    ensures
        candidate(name, stem_part(name), extension_part(name), i) != candidate(
            name,
            stem_part(name),
            extension_part(name),
            j,
        ),
{
    let (stem, ext) = (stem_part(name), extension_part(name));
    if i == 0 || j == 0 {
        let k = if i == 0 {
            j
        } else {
            i
        };
        reveal_strlit(" (");
        reveal_strlit(")");
        reveal_strlit(").");
        lemma_last_dot(name);
        crate::decimal::law_decimal_value(k);
        assert(numbered(stem, ext, k).len() > name.len());
    } else {
        law_numbered_distinct(stem, ext, i, j);
    }
}

/// Whether `taken` reports exactly the names in `existing`.
pub open spec fn reports<F: Fn(&String) -> bool>(taken: F, existing: Set<Seq<char>>) -> bool {
    forall|p: String, b: bool|
        #[trigger] call_ensures(taken, (&p,), b) ==> b == existing.contains(p@)
}

/// A name that is found is not among the existing ones, so that no file is
/// overwritten; and a name that does not exist yet is kept.
pub proof fn law_unique_is_free<F: Fn(&String) -> bool>(
    name: Seq<char>,
    taken: F,
    existing: Set<Seq<char>>,
    found: Seq<char>,
)
    requires
        reports(taken, existing),
        first_free(name, stem_part(name), extension_part(name), taken, Some(found)),
    ensures
        !existing.contains(found),
        !existing.contains(name) ==> found == name,
{
    let i = choose|i: nat|
        {
            &&& i <= MAX_NUMBER
            &&& found == #[trigger] candidate(name, stem_part(name), extension_part(name), i)
            &&& answers(taken, found, false)
            &&& forall|j: nat|
                j < i ==> answers(
                    taken,
                    #[trigger] candidate(name, stem_part(name), extension_part(name), j),
                    true,
                )
        };
    if i > 0 {
        assert(answers(
            taken,
            candidate(name, stem_part(name), extension_part(name), 0),
            true,
        ));
    }
}

proof fn lemma_candidates_counted(name: Seq<char>, existing: Set<Seq<char>>, count: nat)
    requires
        existing.finite(),
        forall|j: nat|
            j < count ==> existing.contains(
                #[trigger] candidate(name, stem_part(name), extension_part(name), j),
            ),
    ensures
        existing.len() >= count,
    decreases count,
{
    if count > 0 {
        let last = (count - 1) as nat;
        let c = candidate(name, stem_part(name), extension_part(name), last);
        assert forall|j: nat| j < last implies existing.remove(c).contains(
            #[trigger] candidate(name, stem_part(name), extension_part(name), j),
        ) by {
            law_candidates_distinct(name, j, last);
        }
        assert(existing.contains(c));
        lemma_candidates_counted(name, existing.remove(c), last);
    }
}

/// A free name is found wherever the directory holds no more names than there are
/// numbers.
pub proof fn law_unique_is_found<F: Fn(&String) -> bool>(
    name: Seq<char>,
    taken: F,
    existing: Set<Seq<char>>,
    found: Option<Seq<char>>,
)
    requires
        existing.finite(),
        existing.len() <= MAX_NUMBER,
        reports(taken, existing),
        first_free(name, stem_part(name), extension_part(name), taken, found),
    ensures
        found is Some,
{
    if found is None {
        assert forall|j: nat| j < MAX_NUMBER + 1 implies existing.contains(
            #[trigger] candidate(name, stem_part(name), extension_part(name), j),
        ) by {
            assert(answers(
                taken,
                candidate(name, stem_part(name), extension_part(name), j),
                true,
            ));
        }
        lemma_candidates_counted(name, existing, (MAX_NUMBER + 1) as nat);
    }
}

/// Whatever name a phone announces, the name under which its file is saved is a
/// single component of a path, so that the file stays in the directory.
pub proof fn law_saved_file_stays_in_directory<F: Fn(&String) -> bool>(
    raw: Seq<char>,
    taken: F,
    found: Seq<char>,
)
    requires
        first_free(
            sanitized(raw),
            stem_part(sanitized(raw)),
            extension_part(sanitized(raw)),
            taken,
            Some(found),
        ),
    ensures
        plain_name(found),
{
    let name = sanitized(raw);
    let i = choose|i: nat|
        {
            &&& i <= MAX_NUMBER
            &&& found == #[trigger] candidate(name, stem_part(name), extension_part(name), i)
            &&& answers(taken, found, false)
            &&& forall|j: nat|
                j < i ==> answers(
                    taken,
                    #[trigger] candidate(name, stem_part(name), extension_part(name), j),
                    true,
                )
        };
    law_sanitized_is_safe(raw);
    law_candidates_stay_plain(name, i);
}

/// Separators are the slash and the backslash; what follows the last one is the last
/// segment, and the whole text where there is none.
pub proof fn law_last_segment_follows_separator(s: Seq<char>, cut: int)
    requires
        0 <= cut <= s.len(),
        cut == 0 || s[cut - 1] == '/' || s[cut - 1] == '\\',
        forall|i: int| cut <= i < s.len() ==> #[trigger] s[i] != '/' && s[i] != '\\',
    ensures
        last_segment(s) == s.skip(cut),
    decreases s.len(),
{
    if s.len() == cut {
        assert(last_segment(s) =~= s.skip(cut));
    } else {
        let rest = s.drop_last();
        assert(s[s.len() - 1] == s.last());
        assert forall|i: int| cut <= i < rest.len() implies #[trigger] rest[i] != '/' && rest[i]
            != '\\' by {
            assert(rest[i] == s[i]);
        }
        law_last_segment_follows_separator(rest, cut);
        assert(rest.skip(cut).push(s.last()) =~= s.skip(cut));
    }
}

/// A saved name holds what follows the last separator, without the white space around
/// it, character for character; only control codes and the characters that some file
/// system forbids become underscores.
pub proof fn law_sanitized_keeps_characters(raw: Seq<char>, cut: int, a: int, b: int)
    requires
        0 <= cut <= a < b <= raw.len(),
        cut == 0 || raw[cut - 1] == '/' || raw[cut - 1] == '\\',
        forall|i: int| cut <= i < raw.len() ==> #[trigger] raw[i] != '/' && raw[i] != '\\',
        forall|i: int| cut <= i < a ==> crate::text::white_space(#[trigger] raw[i]),
        forall|i: int| b <= i < raw.len() ==> crate::text::white_space(#[trigger] raw[i]),
        !crate::text::white_space(raw[a]),
        !crate::text::white_space(raw[b - 1]),
        !(b == a + 1 && raw[a] == '.'),
        !(b == a + 2 && raw[a] == '.' && raw[a + 1] == '.'),
    ensures
        sanitized(raw).len() == b - a,
        forall|i: int|
            0 <= i < b - a ==> #[trigger] sanitized(raw)[i] == (if (raw[a + i] as int) < 32 || 127
                <= raw[a + i] as int <= 159 || raw[a + i] == '<' || raw[a + i] == '>' || raw[a + i]
                == ':' || raw[a + i] == '"' || raw[a + i] == '|' || raw[a + i] == '?' || raw[a + i]
                == '*' {
                '_'
            } else {
                raw[a + i]
            }),
{
    let segment = raw.skip(cut);
    law_last_segment_follows_separator(raw, cut);
    assert forall|i: int| 0 <= i < a - cut implies crate::text::white_space(
        #[trigger] segment[i],
    ) by {
        assert(segment[i] == raw[cut + i]);
    }
    assert forall|i: int| b - cut <= i < segment.len() implies crate::text::white_space(
        #[trigger] segment[i],
    ) by {
        assert(segment[i] == raw[cut + i]);
    }
    crate::text::law_trimmed_is_the_middle(segment, a - cut, b - cut);
    let base = segment.subrange(a - cut, b - cut);
    assert(base =~= raw.subrange(a, b));
    let name = cleaned(base);
    assert(name[0] == cleaned_char(raw[a]));
    assert(name.last() == cleaned_char(raw[b - 1]));
    crate::text::lemma_trimmed_fixed(name);
    assert(!dots(name)) by {
        if name == seq!['.'] {
            assert(name.len() == 1 && name[0] == '.');
        }
        if name == seq!['.', '.'] {
            assert(name.len() == 2 && name[0] == '.' && name[1] == '.');
            assert(name[1] == cleaned_char(raw[a + 1]));
        }
    }
    assert forall|i: int| 0 <= i < b - a implies #[trigger] sanitized(raw)[i] == cleaned_char(
        raw[a + i],
    ) by {}
}

/// Where nothing but white space, or nothing but one or two dots and white space,
/// follows the last separator, the saved name is `unnamed`.
pub proof fn law_nothing_usable_is_unnamed(raw: Seq<char>, cut: int, a: int, b: int)
    requires
        0 <= cut <= a <= b <= raw.len(),
        cut == 0 || raw[cut - 1] == '/' || raw[cut - 1] == '\\',
        forall|i: int| cut <= i < raw.len() ==> #[trigger] raw[i] != '/' && raw[i] != '\\',
        forall|i: int| cut <= i < a ==> crate::text::white_space(#[trigger] raw[i]),
        forall|i: int| b <= i < raw.len() ==> crate::text::white_space(#[trigger] raw[i]),
        b - a <= 2,
        forall|i: int| a <= i < b ==> #[trigger] raw[i] == '.',
    ensures
        sanitized(raw) == "unnamed"@,
{
    let segment = raw.skip(cut);
    law_last_segment_follows_separator(raw, cut);
    assert forall|i: int| 0 <= i < a - cut implies crate::text::white_space(
        #[trigger] segment[i],
    ) by {
        assert(segment[i] == raw[cut + i]);
    }
    assert forall|i: int| b - cut <= i < segment.len() implies crate::text::white_space(
        #[trigger] segment[i],
    ) by {
        assert(segment[i] == raw[cut + i]);
    }
    if a < b {
        assert(raw[a] == '.' && raw[b - 1] == '.');
    }
    crate::text::law_trimmed_is_the_middle(segment, a - cut, b - cut);
    let base = segment.subrange(a - cut, b - cut);
    assert forall|i: int| 0 <= i < base.len() implies #[trigger] base[i] == '.' by {
        assert(base[i] == raw[a + i]);
    }
    assert(cleaned(base) =~= base);
    if base.len() == 1 {
        assert(base =~= seq!['.']);
    } else if base.len() == 2 {
        assert(base =~= seq!['.', '.']);
    } else {
        assert(base =~= Seq::<char>::empty());
    }
    crate::text::lemma_trimmed_fixed(base);
}

/// The stand-in for a header keeps each ASCII letter and digit, dot, hyphen and
/// underscore of a name, and has an underscore in place of each other character.
pub proof fn law_ascii_fallback_keeps_characters(name: Seq<char>, i: int)
    requires
        0 <= i < name.len(),
    ensures
        ascii_fallback(name).len() == name.len(),
        ascii_fallback(name)[i] == (if 48 <= name[i] as int <= 57 || 65 <= name[i] as int <= 90
            || 97 <= name[i] as int <= 122 || name[i] == '.' || name[i] == '-' || name[i] == '_' {
            name[i]
        } else {
            '_'
        }),
{
}

/// A name is split at its last dot, unless that is its first character or there is
/// none.
pub proof fn law_names_split_at_last_dot(name: Seq<char>, at: int)
    requires
        -1 <= at < name.len(),
        at >= 0 ==> name[at] == '.',
        forall|i: int| at < i < name.len() ==> #[trigger] name[i] != '.',
    ensures
        at > 0 ==> stem_part(name) == name.take(at) && extension_part(name) == Some(
            name.skip(at + 1),
        ),
        at <= 0 ==> stem_part(name) == name && extension_part(name) is None,
{
    lemma_last_dot(name);
    if at >= 0 {
        assert(last_dot(name) <= at) by {
            if last_dot(name) > at {
                assert(name[last_dot(name)] != '.');
            }
        }
        lemma_last_dot_is(name, at);
    } else if last_dot(name) >= 0 {
        assert(name[last_dot(name)] != '.');
    }
}

/// A numbered name is the stem, a space, the number in parentheses, and, where there
/// is an extension that is not empty, a dot and the extension.
pub proof fn law_numbered_name_is_composed(
    stem: Seq<char>,
    extension: Option<Seq<char>>,
    i: nat,
) -> (close: int)
    ensures
        stem.len() + 2 < close < numbered(stem, extension, i).len(),
        numbered(stem, extension, i).take(stem.len() as int) == stem,
        numbered(stem, extension, i)[stem.len() as int] == ' ',
        numbered(stem, extension, i)[stem.len() as int + 1] == '(',
        crate::decimal::parsed(
            numbered(stem, extension, i).subrange(stem.len() as int + 2, close),
        ) == Some(i),
        i > 0 ==> numbered(stem, extension, i)[stem.len() as int + 2] != '0',
        numbered(stem, extension, i)[close] == ')',
        extension is None || extension->0.len() == 0 ==> numbered(stem, extension, i).len() == close
            + 1,
        extension is Some && extension->0.len() > 0 ==> {
            &&& numbered(stem, extension, i)[close + 1] == '.'
            &&& numbered(stem, extension, i).skip(close + 2) == extension->0
        },
{
    reveal_strlit(" (");
    reveal_strlit(")");
    reveal_strlit(").");
    crate::decimal::law_decimal_value(i);
    crate::decimal::law_decimal_has_no_leading_zero(i);
    let n = numbered(stem, extension, i);
    let d = crate::decimal::decimal(i);
    let tail = after_number(extension);
    let close = stem.len() as int + 2 + d.len();
    assert(n.take(stem.len() as int) =~= stem);
    assert(n[stem.len() as int] == " ("@[0]);
    assert(n[stem.len() as int + 1] == " ("@[1]);
    assert(n.subrange(stem.len() as int + 2, close) =~= d);
    assert(n[stem.len() as int + 2] == d[0]);
    assert(crate::decimal::is_digit(d[0]));
    assert(n[close] == tail[0]);
    if extension is Some && extension->0.len() > 0 {
        assert(n[close + 1] == tail[1]);
        assert(n.skip(close + 2) =~= extension->0);
    }
    close
}

/// The name that is found is the name itself where that is free, and otherwise the
/// name with the smallest number that is free.
pub proof fn law_smallest_free_number_is_found<F: Fn(&String) -> bool>(
    name: Seq<char>,
    taken: F,
    existing: Set<Seq<char>>,
    found: Seq<char>,
    i: nat,
)
    requires
        reports(taken, existing),
        first_free(name, stem_part(name), extension_part(name), taken, Some(found)),
        existing.contains(name),
        i > 0,
        !existing.contains(numbered(stem_part(name), extension_part(name), i)),
        forall|j: nat|
            0 < j < i ==> existing.contains(
                #[trigger] numbered(stem_part(name), extension_part(name), j),
            ),
    ensures
        found == numbered(stem_part(name), extension_part(name), i),
{
    let (stem, ext) = (stem_part(name), extension_part(name));
    let k = choose|k: nat|
        {
            &&& k <= MAX_NUMBER
            &&& found == #[trigger] candidate(name, stem, ext, k)
            &&& answers(taken, found, false)
            &&& forall|j: nat|
                j < k ==> answers(taken, #[trigger] candidate(name, stem, ext, j), true)
        };
    assert(!existing.contains(found));
    if k < i {
        if k > 0 {
            assert(existing.contains(numbered(stem, ext, k)));
        }
    } else if k > i {
        assert(answers(taken, candidate(name, stem, ext, i), true));
        assert(existing.contains(candidate(name, stem, ext, i)));
    }
}

/// A plain name is not empty, is neither one dot nor two, and holds no slash, no
/// backslash and no colon.
pub proof fn law_plain_names_are_components(name: Seq<char>)
    ensures
        plain_name(name) <==> {
            &&& name.len() > 0
            &&& !(name.len() == 1 && name[0] == '.')
            &&& !(name.len() == 2 && name[0] == '.' && name[1] == '.')
            &&& forall|i: int|
                0 <= i < name.len() ==> #[trigger] name[i] != '/' && name[i] != '\\' && name[i]
                    != ':'
        },
{
    if name.len() == 1 && name[0] == '.' {
        assert(name =~= seq!['.']);
    }
    if name.len() == 2 && name[0] == '.' && name[1] == '.' {
        assert(name =~= seq!['.', '.']);
    }
    assert(seq!['.'][0] == '.' && seq!['.', '.'][0] == '.' && seq!['.', '.'][1] == '.');
    assert forall|i: int| 0 <= i < name.len() && plain_name(name) implies #[trigger] name[i] != '/'
        && name[i] != '\\' && name[i] != ':' by {
        assert(!separator(name[i]));
    }
}

} // verus!
