//! Characters, trimming and previews.

use vstd::prelude::*;

verus! {

/// `String::push` appends the given character to the end of the string.
pub assume_specification[ String::push ](s: &mut String, c: char)
    ensures
        final(s)@ == old(s)@.push(c),
;

/// The Unicode `White_Space` property.
pub open spec fn white_space(c: char) -> bool {
    ||| '\u{9}' <= c <= '\u{d}'
    ||| c == ' '
    ||| c == '\u{85}'
    ||| c == '\u{a0}'
    ||| c == '\u{1680}'
    ||| '\u{2000}' <= c <= '\u{200a}'
    ||| c == '\u{2028}'
    ||| c == '\u{2029}'
    ||| c == '\u{202f}'
    ||| c == '\u{205f}'
    ||| c == '\u{3000}'
}

/// The Unicode general category `Cc`: the C0 and C1 control codes and DEL.
pub open spec fn control_code(c: char) -> bool {
    ||| c <= '\u{1f}'
    ||| '\u{7f}' <= c <= '\u{9f}'
}

/// An ASCII letter or digit.
pub open spec fn ascii_alphanumeric(c: char) -> bool {
    ||| 'a' <= c <= 'z'
    ||| 'A' <= c <= 'Z'
    ||| '0' <= c <= '9'
}

/// The text without its leading white space.
pub open spec fn trim_start(s: Seq<char>) -> Seq<char>
    decreases s.len(),
{
    if s.len() > 0 && white_space(s[0]) {
        trim_start(s.drop_first())
    } else {
        s
    }
}

/// The text without its trailing white space.
pub open spec fn trim_end(s: Seq<char>) -> Seq<char>
    decreases s.len(),
{
    if s.len() > 0 && white_space(s.last()) {
        trim_end(s.drop_last())
    } else {
        s
    }
}

/// The text without the white space at its two ends.
pub open spec fn trimmed(s: Seq<char>) -> Seq<char> {
    trim_end(trim_start(s))
}

/// The first `max` characters followed by an ellipsis, or the whole text where it
/// is no longer than that.
pub open spec fn preview(s: Seq<char>, max: nat) -> Seq<char> {
    if s.len() <= max {
        s
    } else {
        s.take(max as int).push('…')
    }
}

/// Whether `c` is white space.
pub fn is_white_space(c: char) -> (r: bool)
    ensures
        r == white_space(c),
{
    ('\u{9}' <= c && c <= '\u{d}') || c == ' ' || c == '\u{85}' || c == '\u{a0}' || c == '\u{1680}'
        || ('\u{2000}' <= c && c <= '\u{200a}') || c == '\u{2028}' || c == '\u{2029}' || c
        == '\u{202f}' || c == '\u{205f}' || c == '\u{3000}'
}

/// Whether `c` is a control code.
pub fn is_control_code(c: char) -> (r: bool)
    ensures
        r == control_code(c),
{
    c <= '\u{1f}' || ('\u{7f}' <= c && c <= '\u{9f}')
}

/// Whether `c` is an ASCII letter or digit.
pub fn is_ascii_alphanumeric(c: char) -> (r: bool)
    ensures
        r == ascii_alphanumeric(c),
{
    ('a' <= c && c <= 'z') || ('A' <= c && c <= 'Z') || ('0' <= c && c <= '9')
}

/// The characters of a text.
pub fn chars_of(s: &str) -> (r: Vec<char>)
    ensures
        r@ == s@,
{
    let mut r: Vec<char> = Vec::new();
    for c in it: s.chars()
        invariant
            r@ == s@.take(it.index() as int),
            it.seq() == s@,
    {
        r.push(c);
    }
    r
}

/// The characters from `from` up to `to` as a string.
pub fn string_of(chars: &Vec<char>, from: usize, to: usize) -> (r: String)
    requires
        from <= to <= chars@.len(),
    ensures
        r@ == chars@.subrange(from as int, to as int),
{
    let mut r = String::new();
    let mut i: usize = from;
    while i < to
        invariant
            from <= i <= to <= chars@.len(),
            r@ == chars@.subrange(from as int, i as int),
        decreases to - i,
    {
        r.push(chars[i]);
        i = i + 1;
    }
    r
}

proof fn lemma_trim_start_step(s: Seq<char>, from: int)
    requires
        0 <= from < s.len(),
        white_space(s[from]),
    ensures
        trim_start(s.skip(from)) == trim_start(s.skip(from + 1)),
{
    assert(s.skip(from).drop_first() =~= s.skip(from + 1));
}

/// The text without the white space at its two ends.
pub fn trim(s: &str) -> (r: String)
    ensures
        r@ == trimmed(s@),
{
    let chars = chars_of(s);
    let mut from: usize = 0;
    assert(s@.skip(0) =~= s@);
    while from < chars.len() && is_white_space(chars[from])
        invariant
            from <= chars@.len(),
            chars@ == s@,
            trim_start(s@.skip(from as int)) == trim_start(s@),
        decreases chars@.len() - from,
    {
        proof {
            lemma_trim_start_step(s@, from as int);
        }
        from = from + 1;
    }
    let mut to: usize = chars.len();
    let ghost rest = s@.skip(from as int);
    assert(trim_start(s@) == rest);
    assert(s@.subrange(from as int, to as int) =~= rest);
    while from < to && is_white_space(chars[to - 1])
        invariant
            from <= to <= chars@.len(),
            chars@ == s@,
            trim_end(s@.subrange(from as int, to as int)) == trimmed(s@),
        decreases to,
    {
        assert(s@.subrange(from as int, to as int).drop_last() =~= s@.subrange(
            from as int,
            to - 1,
        ));
        to = to - 1;
    }
    string_of(&chars, from, to)
}

/// A preview of a text, cut after `max` characters.
pub fn text_preview(text: &str, max: usize) -> (r: String)
    ensures
        r@ == preview(text@, max as nat),
{
    let chars = chars_of(text);
    if chars.len() <= max {
        text.to_string()
    } else {
        let mut s = string_of(&chars, 0, max);
        s.push('…');
        assert(s@ =~= text@.take(max as int).push('…'));
        s
    }
}

/// The longest text that is sent or received, in characters.
pub const MAX_TEXT: usize = 10000;

/// The message for a text of white space alone.
pub const EMPTY_TEXT: &'static str = "文本不能为空";

/// The message for a text that is too long.
pub const TEXT_TOO_LONG: &'static str = "文本过长";

/// A text as it is sent or received: trimmed, neither empty nor too long; or the
/// message that says why it is refused.
pub open spec fn accepted(raw: Seq<char>) -> Result<Seq<char>, Seq<char>> {
    let text = trimmed(raw);
    if text.len() == 0 {
        Err(EMPTY_TEXT@)
    } else if text.len() > MAX_TEXT {
        Err(TEXT_TOO_LONG@)
    } else {
        Ok(text)
    }
}

/// The content of a text or of a message.
pub open spec fn result_view(r: Result<String, String>) -> Result<Seq<char>, Seq<char>> {
    match r {
        Ok(s) => Ok(s@),
        Err(e) => Err(e@),
    }
}

/// A text as it is sent or received, or the message that says why it is refused.
pub fn check_text(raw: &str) -> (r: Result<String, String>)
    ensures
        result_view(r) == accepted(raw@),
{
    let text = trim(raw);
    if text.as_str().is_empty() {
        return Err(EMPTY_TEXT.to_string());
    }
    if text.as_str().unicode_len() > MAX_TEXT {
        return Err(TEXT_TOO_LONG.to_string());
    }
    Ok(text)
}

/// A message followed by its cause.
pub(crate) fn because(message: &str, cause: String) -> (r: String)
    ensures
        r@ == message@ + cause@,
{
    let mut r = message.to_string();
    r.append(cause.as_str());
    r
}

/// Trimming a text leaves a stretch of it.
pub proof fn lemma_trimmed_is_stretch(s: Seq<char>) -> (ends: (int, int))
    ensures
        0 <= ends.0 <= ends.1 <= s.len(),
        trimmed(s) == s.subrange(ends.0, ends.1),
{
    let from = lemma_trim_start_is_suffix(s);
    let to = lemma_trim_end_is_prefix(trim_start(s));
    assert(s.skip(from).take(to) =~= s.subrange(from, from + to));
    (from, from + to)
}

proof fn lemma_trim_start_is_suffix(s: Seq<char>) -> (from: int)
    ensures
        0 <= from <= s.len(),
        trim_start(s) == s.skip(from),
    decreases s.len(),
{
    if s.len() > 0 && white_space(s[0]) {
        let rest = lemma_trim_start_is_suffix(s.drop_first());
        assert(s.drop_first().skip(rest) =~= s.skip(rest + 1));
        rest + 1
    } else {
        assert(s.skip(0) =~= s);
        0
    }
}

proof fn lemma_trim_end_is_prefix(s: Seq<char>) -> (to: int)
    ensures
        0 <= to <= s.len(),
        trim_end(s) == s.take(to),
        to > 0 ==> !white_space(s[to - 1]),
    decreases s.len(),
{
    if s.len() > 0 && white_space(s.last()) {
        let rest = lemma_trim_end_is_prefix(s.drop_last());
        assert(s.drop_last().take(rest) =~= s.take(rest));
        rest
    } else {
        assert(s.take(s.len() as int) =~= s);
        s.len() as int
    }
}

proof fn lemma_trim_start_first(s: Seq<char>)
    ensures
        trim_start(s).len() > 0 ==> !white_space(trim_start(s)[0]),
    decreases s.len(),
{
    if s.len() > 0 && white_space(s[0]) {
        lemma_trim_start_first(s.drop_first());
    }
}

/// A trimmed text neither starts nor ends with white space.
pub proof fn lemma_trimmed_ends(s: Seq<char>)
    ensures
        trimmed(s).len() > 0 ==> !white_space(trimmed(s)[0]) && !white_space(trimmed(s).last()),
{
    lemma_trim_start_first(s);
    let _ = lemma_trim_end_is_prefix(trim_start(s));
}

/// A text that neither starts nor ends with white space is left as it is by trimming.
pub proof fn lemma_trimmed_fixed(s: Seq<char>)
    requires
        s.len() > 0 ==> !white_space(s[0]) && !white_space(s.last()),
    ensures
        trimmed(s) == s,
{
}

/// Trimming a second time changes nothing.
pub proof fn law_trim_idempotent(s: Seq<char>)
    ensures
        trimmed(trimmed(s)) == trimmed(s),
{
    lemma_trimmed_ends(s);
}

/// Trimming leaves nothing exactly where the text is white space throughout.
pub proof fn law_trim_empty(s: Seq<char>)
    ensures
        trimmed(s).len() == 0 <==> forall|i: int| 0 <= i < s.len() ==> white_space(#[trigger] s[i]),
    decreases s.len(),
{
    if s.len() > 0 && white_space(s[0]) {
        law_trim_empty(s.drop_first());
        assert forall|i: int| 0 <= i < s.len() && trimmed(s).len() == 0 implies white_space(
            #[trigger] s[i],
        ) by {
            if i > 0 {
                assert(s.drop_first()[i - 1] == s[i]);
            }
        }
        if trimmed(s).len() > 0 {
            let k = choose|k: int|
                0 <= k < s.drop_first().len() && !white_space(#[trigger] s.drop_first()[k]);
            assert(!white_space(s[k + 1]));
        }
    } else if s.len() > 0 {
        let to = lemma_trim_end_is_prefix(s);
        if to == 0 {
            lemma_trim_end_all(s);
        }
    }
}

proof fn lemma_trim_end_all(s: Seq<char>)
    requires
        trim_end(s).len() == 0,
    ensures
        forall|i: int| 0 <= i < s.len() ==> white_space(#[trigger] s[i]),
    decreases s.len(),
{
    if s.len() > 0 {
        lemma_trim_end_all(s.drop_last());
        assert forall|i: int| 0 <= i < s.len() implies white_space(#[trigger] s[i]) by {
            if i < s.len() - 1 {
                assert(s.drop_last()[i] == s[i]);
            }
        }
    }
}

/// A preview starts with the text's own first characters and is at most one
/// character longer than asked for.
pub proof fn law_preview_bounds(s: Seq<char>, max: nat)
    ensures
        preview(s, max).len() <= max + 1,
        s.len() <= max ==> preview(s, max) == s,
        s.len() > max ==> preview(s, max).take(max as int) == s.take(max as int),
{
    if s.len() > max {
        assert(preview(s, max).take(max as int) =~= s.take(max as int));
    }
}

/// A text that was accepted is accepted again as it is, is not empty, fits the
/// limit and neither starts nor ends with white space.
pub proof fn law_accepted_text(raw: Seq<char>)
    requires
        accepted(raw) is Ok,
    ensures
        accepted(accepted(raw)->Ok_0) == accepted(raw),
        0 < accepted(raw)->Ok_0.len() <= MAX_TEXT,
        !white_space(accepted(raw)->Ok_0[0]),
        !white_space(accepted(raw)->Ok_0.last()),
{
    law_trim_idempotent(raw);
    lemma_trimmed_ends(raw);
}

/// White space by code points: tabulation and line breaks, the space, the other spaces
/// of Unicode and its line and paragraph separators.
pub proof fn law_white_space_codes(c: char)
    ensures
        white_space(c) <==> {
            let code = c as u32;
            ||| 9 <= code <= 13
            ||| code == 32
            ||| code == 133
            ||| code == 160
            ||| code == 5760
            ||| 8192 <= code <= 8202
            ||| code == 8232
            ||| code == 8233
            ||| code == 8239
            ||| code == 8287
            ||| code == 12288
        },
{
}

/// Control codes by code points: below the space, and from 127 up to 159.
pub proof fn law_control_codes(c: char)
    ensures
        control_code(c) <==> (c as u32) < 32 || 127 <= c as u32 <= 159,
{
}

/// ASCII letters and digits by code points.
pub proof fn law_ascii_alphanumeric_codes(c: char)
    ensures
        ascii_alphanumeric(c) <==> 48 <= c as u32 <= 57 || 65 <= c as u32 <= 90 || 97 <= c as u32
            <= 122,
{
}

proof fn lemma_trim_start_skips(s: Seq<char>, a: int)
    requires
        0 <= a <= s.len(),
        forall|i: int| 0 <= i < a ==> white_space(#[trigger] s[i]),
        a < s.len() ==> !white_space(s[a]),
    ensures
        trim_start(s) == s.skip(a),
    decreases a,
{
    if a > 0 {
        let rest = s.drop_first();
        assert(white_space(s[0]));
        assert forall|i: int| 0 <= i < a - 1 implies white_space(#[trigger] rest[i]) by {
            assert(rest[i] == s[i + 1]);
        }
        lemma_trim_start_skips(rest, a - 1);
        assert(rest.skip(a - 1) =~= s.skip(a));
    } else {
        assert(s.skip(0) =~= s);
    }
}

proof fn lemma_trim_end_takes(s: Seq<char>, b: int)
    requires
        0 <= b <= s.len(),
        forall|i: int| b <= i < s.len() ==> white_space(#[trigger] s[i]),
        b > 0 ==> !white_space(s[b - 1]),
    ensures
        trim_end(s) == s.take(b),
    decreases s.len(),
{
    if b < s.len() {
        let rest = s.drop_last();
        assert(white_space(s[s.len() - 1]));
        assert forall|i: int| b <= i < rest.len() implies white_space(#[trigger] rest[i]) by {
            assert(rest[i] == s[i]);
        }
        lemma_trim_end_takes(rest, b);
        assert(rest.take(b) =~= s.take(b));
    } else {
        assert(s.take(b) =~= s);
    }
}

/// Where a text consists of white space, a stretch that neither starts nor ends with
/// white space, and white space, trimming leaves exactly that stretch.
pub proof fn law_trimmed_is_the_middle(s: Seq<char>, a: int, b: int)
    requires
        0 <= a <= b <= s.len(),
        forall|i: int| 0 <= i < a ==> white_space(#[trigger] s[i]),
        forall|i: int| b <= i < s.len() ==> white_space(#[trigger] s[i]),
        a < b ==> !white_space(s[a]) && !white_space(s[b - 1]),
    ensures
        trimmed(s) == s.subrange(a, b),
{
    if a == b {
        lemma_trim_start_skips(s, s.len() as int);
        assert(trimmed(s) =~= s.subrange(a, b));
    } else {
        lemma_trim_start_skips(s, a);
        let t = s.skip(a);
        assert forall|i: int| b - a <= i < t.len() implies white_space(#[trigger] t[i]) by {
            assert(t[i] == s[a + i]);
        }
        lemma_trim_end_takes(t, b - a);
        assert(t.take(b - a) =~= s.subrange(a, b));
    }
}

/// A preview of a text that is too long holds the first characters of the text and
/// then an ellipsis; any other text is its own preview.
pub proof fn law_preview_is_the_start(s: Seq<char>, max: nat, i: int)
    requires
        0 <= i < s.len(),
    ensures
        s.len() <= max ==> preview(s, max).len() == s.len() && preview(s, max)[i] == s[i],
        s.len() > max ==> {
            &&& preview(s, max).len() == max + 1
            &&& i < max ==> preview(s, max)[i] == s[i]
            &&& preview(s, max)[max as int] as u32 == 0x2026
        },
{
}

/// A text of one to ten thousand characters without white space at its ends is
/// accepted as it is, with any white space around it; longer texts and white space
/// alone are refused.
pub proof fn law_text_is_accepted_unchanged(before: Seq<char>, text: Seq<char>, after: Seq<char>)
    requires
        forall|i: int| 0 <= i < before.len() ==> white_space(#[trigger] before[i]),
        forall|i: int| 0 <= i < after.len() ==> white_space(#[trigger] after[i]),
        text.len() > 0 ==> !white_space(text[0]) && !white_space(text.last()),
    ensures
        0 < text.len() <= 10000 ==> accepted(before + text + after) == Ok::<_, Seq<char>>(text),
        text.len() == 0 ==> accepted(before + text + after) == Err::<Seq<char>, _>(
            "文本不能为空"@,
        ),
        text.len() > 10000 ==> accepted(before + text + after) == Err::<Seq<char>, _>("文本过长"@),
{
    let s = before + text + after;
    let a = before.len() as int;
    let b = a + text.len();
    assert forall|i: int| 0 <= i < a implies white_space(#[trigger] s[i]) by {
        assert(s[i] == before[i]);
    }
    assert forall|i: int| b <= i < s.len() implies white_space(#[trigger] s[i]) by {
        assert(s[i] == after[i - b]);
    }
    if text.len() > 0 {
        assert(s[a] == text[0]);
        assert(s[b - 1] == text.last());
    }
    law_trimmed_is_the_middle(s, a, b);
    assert(s.subrange(a, b) =~= text);
}

} // verus!
