//! Text as sequences of characters: the escape grammar, the key suffixes,
//! line splitting, quoting and trimming, each as a mathematical definition,
//! and the small executable pieces that read and build strings.

use vstd::prelude::*;
use vstd::string::StringExecFns;

verus! {

// ---------------------------------------------------------------------------
// The escape grammar
// ---------------------------------------------------------------------------

/// The letters that name a character after a backslash: `n`, `t`, `r`, the
/// backslash and the double quote.
pub open spec fn is_escape_letter(c: char) -> bool {
    c == 'n' || c == 't' || c == 'r' || c == '\\' || c == '"'
}

/// The character that a backslash followed by the escape letter `c` names:
/// a newline for `n`, a tab for `t`, a carriage return for `r`; the backslash
/// and the double quote name themselves.
pub open spec fn escape_value(c: char) -> char {
    if c == 'n' {
        '\n'
    } else if c == 't' {
        '\t'
    } else if c == 'r' {
        '\r'
    } else {
        c
    }
}

/// What a backslash followed by `c` decodes to: the character that the pair
/// names, or the pair itself where it names none.
pub open spec fn escape_pair(c: char) -> Seq<char> {
    if is_escape_letter(c) {
        seq![escape_value(c)]
    } else {
        seq!['\\', c]
    }
}

/// The literal text that the escaped text `s` stands for, read from left to
/// right. A backslash at the very end stands for itself.
pub open spec fn unescaped(s: Seq<char>) -> Seq<char>
    decreases s.len(),
{
    if s.len() == 0 {
        Seq::empty()
    } else if s[0] != '\\' {
        seq![s[0]] + unescaped(s.skip(1))
    } else if s.len() == 1 {
        seq!['\\']
    } else {
        escape_pair(s[1]) + unescaped(s.skip(2))
    }
}

// ---------------------------------------------------------------------------
// Key suffixes
// ---------------------------------------------------------------------------

/// `s` ends with exactly the characters of `suffix`.
pub open spec fn ends_with(s: Seq<char>, suffix: Seq<char>) -> bool {
    suffix.len() <= s.len() && s.skip(s.len() - suffix.len()) == suffix
}

/// The key names whose values hold embedded documents: those that end in
/// `.yaml`, `.yml`, `.json` or `.toml`, compared case-sensitively.
pub open spec fn is_peelable_key(key: Seq<char>) -> bool {
    ||| ends_with(key, ".yaml"@)
    ||| ends_with(key, ".yml"@)
    ||| ends_with(key, ".json"@)
    ||| ends_with(key, ".toml"@)
}

// ---------------------------------------------------------------------------
// Lines
// ---------------------------------------------------------------------------

/// The number of characters before the first newline of `s`, or the length
/// of `s` if it has none.
pub open spec fn line_end(s: Seq<char>) -> nat
    decreases s.len(),
{
    if s.len() == 0 || s[0] == '\n' {
        0
    } else {
        1 + line_end(s.skip(1))
    }
}

/// `line` without the carriage return that ends it, if one does.
pub open spec fn without_cr(line: Seq<char>) -> Seq<char> {
    if line.len() > 0 && line.last() == '\r' {
        line.drop_last()
    } else {
        line
    }
}

/// The lines of `s`. A line ends at a newline, or at a carriage return
/// directly followed by one; the ending is not part of the line. The last
/// line needs no ending, and an ending at the very end opens no further line.
pub open spec fn lines(s: Seq<char>) -> Seq<Seq<char>>
    decreases s.len(),
{
    if s.len() == 0 {
        Seq::empty()
    } else if line_end(s) >= s.len() {
        seq![s]
    } else {
        seq![without_cr(s.take(line_end(s) as int))] + lines(s.skip(line_end(s) as int + 1))
    }
}

/// Every line of `all`, each behind `prefix` and closed by a newline.
pub open spec fn prefixed_lines(all: Seq<Seq<char>>, prefix: Seq<char>) -> Seq<char>
    decreases all.len(),
{
    if all.len() == 0 {
        Seq::empty()
    } else {
        prefix + all[0] + seq!['\n'] + prefixed_lines(all.skip(1), prefix)
    }
}

// ---------------------------------------------------------------------------
// Quoting
// ---------------------------------------------------------------------------

/// A value needs quotes when it holds a newline or a double quote, or begins
/// or ends with a space.
pub open spec fn needs_quotes(s: Seq<char>) -> bool {
    ||| s.contains('\n')
    ||| s.contains('"')
    ||| (s.len() > 0 && s[0] == ' ')
    ||| (s.len() > 0 && s.last() == ' ')
}

/// `s` with a backslash put before every double quote.
pub open spec fn escape_quotes(s: Seq<char>) -> Seq<char>
    decreases s.len(),
{
    if s.len() == 0 {
        Seq::empty()
    } else if s[0] == '"' {
        seq!['\\', '"'] + escape_quotes(s.skip(1))
    } else {
        seq![s[0]] + escape_quotes(s.skip(1))
    }
}

/// A string value as it stands behind its key on one line: bare, or between
/// double quotes with the quotes inside it escaped.
pub open spec fn inline_scalar(s: Seq<char>) -> Seq<char> {
    if needs_quotes(s) {
        seq!['"'] + escape_quotes(s) + seq!['"']
    } else {
        s
    }
}

// ---------------------------------------------------------------------------
// Trimming
// ---------------------------------------------------------------------------

/// The characters that Unicode counts as white space (`White_Space`).
pub open spec fn is_whitespace(c: char) -> bool {
    ||| '\u{9}' <= c <= '\u{D}'
    ||| c == ' '
    ||| c == '\u{85}'
    ||| c == '\u{A0}'
    ||| c == '\u{1680}'
    ||| '\u{2000}' <= c <= '\u{200A}'
    ||| c == '\u{2028}'
    ||| c == '\u{2029}'
    ||| c == '\u{202F}'
    ||| c == '\u{205F}'
    ||| c == '\u{3000}'
}

/// `s` without the whitespace at its end.
pub open spec fn trimmed_end(s: Seq<char>) -> Seq<char>
    decreases s.len(),
{
    if s.len() > 0 && is_whitespace(s.last()) {
        trimmed_end(s.drop_last())
    } else {
        s
    }
}

// ---------------------------------------------------------------------------
// Indentation
// ---------------------------------------------------------------------------

/// `levels` levels of indentation: two spaces for each.
pub open spec fn indentation(levels: nat) -> Seq<char> {
    Seq::new(2 * levels, |i: int| ' ')
}

// ---------------------------------------------------------------------------
// Reading and building strings
// ---------------------------------------------------------------------------

/// The characters of `s`, in order.
pub fn chars_of(s: &str) -> (out: Vec<char>)
    ensures
        out@ == s@,
{
    let mut out: Vec<char> = Vec::new();
    for c in it: s.chars()
        invariant
            out@ == it.seq().take(it.index() as int),
            it.seq() == s@,
    {
        out.push(c);
    }
    out
}

/// Whether `a` and `b` hold the same characters.
pub fn same_text(a: &str, b: &str) -> (same: bool)
    ensures
        same == (a@ == b@),
{
    let left = chars_of(a);
    let right = chars_of(b);
    if left.len() != right.len() {
        return false;
    }
    let mut i: usize = 0;
    while i < left.len()
        invariant
            i <= left.len(),
            left.len() == right.len(),
            left@ == a@,
            right@ == b@,
            forall|j: int| 0 <= j < i ==> left@[j] == right@[j],
        decreases left.len() - i,
    {
        if left[i] != right[i] {
            return false;
        }
        i += 1;
    }
    assert(left@ =~= right@);
    true
}

/// Appends one character to `s`. This is `String::push` of the standard
/// library, which puts the character behind those that are there.
#[verifier::external_body]
pub(crate) fn push_char(s: &mut String, c: char)
    ensures
        final(s)@ == old(s)@.push(c),
{
    s.push(c);
}

/// Appends the characters `chars[from..to]` to `s`.
pub fn push_range(s: &mut String, chars: &Vec<char>, from: usize, to: usize)
    requires
        from <= to <= chars.len(),
    ensures
        final(s)@ == old(s)@ + chars@.subrange(from as int, to as int),
{
    let mut i: usize = from;
    while i < to
        invariant
            from <= i <= to <= chars.len(),
            s@ == old(s)@ + chars@.subrange(from as int, i as int),
        decreases to - i,
    {
        push_char(s, chars[i]);
        i += 1;
        assert(chars@.subrange(from as int, i as int) == chars@.subrange(
            from as int,
            i as int - 1,
        ).push(chars@[i as int - 1]));
    }
}

/// Whether the last characters of `s` are those of `suffix`.
pub fn has_suffix(s: &Vec<char>, suffix: &str) -> (r: bool)
    ensures
        r == ends_with(s@, suffix@),
{
    let tail = chars_of(suffix);
    if tail.len() > s.len() {
        return false;
    }
    let start: usize = s.len() - tail.len();
    let mut i: usize = 0;
    while i < tail.len()
        invariant
            i <= tail.len(),
            tail.len() <= s.len(),
            start == s.len() - tail.len(),
            tail@ == suffix@,
            forall|j: int| 0 <= j < i ==> s@[start + j] == tail@[j],
        decreases tail.len() - i,
    {
        if s[start + i] != tail[i] {
            assert(s@.skip(start as int)[i as int] != suffix@[i as int]);
            return false;
        }
        i += 1;
    }
    assert(s@.skip(start as int) =~= suffix@);
    true
}

/// Whether `c` occurs in `chars`.
pub fn contains_char(chars: &Vec<char>, c: char) -> (found: bool)
    ensures
        found == chars@.contains(c),
{
    let mut i: usize = 0;
    while i < chars.len()
        invariant
            i <= chars.len(),
            forall|j: int| 0 <= j < i ==> chars@[j] != c,
        decreases chars.len() - i,
    {
        if chars[i] == c {
            return true;
        }
        i += 1;
    }
    false
}

/// Appends `value` to `s` as it stands behind its key on one line.
pub fn push_inline_scalar(s: &mut String, value: &str)
    ensures
        final(s)@ == old(s)@ + inline_scalar(value@),
{
    let chars = chars_of(value);
    let n = chars.len();
    let quoted = contains_char(&chars, '\n') || contains_char(&chars, '"') || (n > 0 && chars[0]
        == ' ') || (n > 0 && chars[n - 1] == ' ');
    if !quoted {
        push_range(s, &chars, 0, n);
        assert(chars@.subrange(0, n as int) == chars@);
        return ;
    }
    push_char(s, '"');
    let ghost before = s@;
    let mut i: usize = 0;
    assert(chars@.skip(0) == chars@);
    assert(s@ + escape_quotes(chars@) == before + escape_quotes(chars@));
    while i < n
        invariant
            i <= n,
            n == chars.len(),
            s@ + escape_quotes(chars@.skip(i as int)) == before + escape_quotes(chars@),
        decreases n - i,
    {
        let ghost rest = chars@.skip(i as int);
        let ghost so_far = s@;
        let c = chars[i];
        if c == '"' {
            push_char(s, '\\');
            push_char(s, '"');
            assert(s@ == so_far + seq!['\\', '"']);
        } else {
            push_char(s, c);
            assert(s@ == so_far + seq![c]);
        }
        i += 1;
        assert(rest.skip(1) == chars@.skip(i as int));
        assert(s@ + escape_quotes(chars@.skip(i as int)) == so_far + escape_quotes(rest));
    }
    assert(escape_quotes(chars@.skip(n as int)) == Seq::<char>::empty());
    assert(s@ == before + escape_quotes(chars@));
    push_char(s, '"');
    assert(s@ == old(s)@ + (seq!['"'] + escape_quotes(chars@) + seq!['"']));
}

/// Appends every line of `chars` to `s`, each behind `prefix` and closed by
/// a newline.
pub fn push_block(s: &mut String, chars: &Vec<char>, prefix: &str)
    ensures
        final(s)@ == old(s)@ + prefixed_lines(lines(chars@), prefix@),
{
    let n = chars.len();
    let mut start: usize = 0;
    assert(chars@.skip(0) == chars@);
    assert(s@ + prefixed_lines(lines(chars@), prefix@) == old(s)@ + prefixed_lines(
        lines(chars@),
        prefix@,
    ));
    while start < n
        invariant
            start <= n,
            n == chars.len(),
            s@ + prefixed_lines(lines(chars@.skip(start as int)), prefix@) == old(s)@
                + prefixed_lines(lines(chars@), prefix@),
        decreases n - start,
    {
        let ghost rest = chars@.skip(start as int);
        let ghost so_far = s@;
        let mut end: usize = start;
        assert(rest.skip(0) == rest);
        while end < n && chars[end] != '\n'
            invariant
                start <= end <= n,
                n == chars.len(),
                rest == chars@.skip(start as int),
                line_end(rest) == (end - start) + line_end(rest.skip(end - start)),
            decreases n - end,
        {
            assert(rest.skip(end - start)[0] == chars@[end as int]);
            assert(rest.skip(end - start).skip(1) == rest.skip(end - start + 1));
            end += 1;
        }
        assert(line_end(rest) == end - start) by {
            if end < n {
                assert(rest.skip(end - start)[0] == chars@[end as int]);
            }
        }
        push_str(s, prefix);
        if end == n {
            push_range(s, chars, start, end);
            push_char(s, '\n');
            assert(chars@.subrange(start as int, end as int) == rest);
            assert(lines(rest) == seq![rest]);
            assert(lines(rest).skip(1) == Seq::<Seq<char>>::empty());
            assert(prefixed_lines(lines(rest).skip(1), prefix@) == Seq::<char>::empty());
            assert(prefixed_lines(lines(rest), prefix@) == prefix@ + rest + seq!['\n']);
            assert(s@ == so_far + (prefix@ + rest + seq!['\n']));
            start = end;
            assert(lines(chars@.skip(start as int)) == Seq::<Seq<char>>::empty());
            assert(s@ + prefixed_lines(lines(chars@.skip(start as int)), prefix@) == so_far
                + prefixed_lines(lines(rest), prefix@));
        } else {
            let stop: usize = if end > start && chars[end - 1] == '\r' {
                end - 1
            } else {
                end
            };
            push_range(s, chars, start, stop);
            push_char(s, '\n');
            let ghost line = without_cr(rest.take(end - start));
            assert(rest.take(end - start) == chars@.subrange(start as int, end as int));
            assert(line == chars@.subrange(start as int, stop as int));
            assert(rest.skip(end - start + 1) == chars@.skip(end as int + 1));
            assert(lines(rest) == seq![line] + lines(chars@.skip(end as int + 1)));
            assert(lines(rest).skip(1) == lines(chars@.skip(end as int + 1)));
            assert(prefixed_lines(lines(rest), prefix@) == prefix@ + line + seq!['\n']
                + prefixed_lines(lines(chars@.skip(end as int + 1)), prefix@));
            assert(s@ == so_far + (prefix@ + line + seq!['\n']));
            start = end + 1;
            assert(s@ + prefixed_lines(lines(chars@.skip(start as int)), prefix@) == so_far
                + prefixed_lines(lines(rest), prefix@));
        }
    }
    assert(lines(chars@.skip(n as int)) == Seq::<Seq<char>>::empty());
    assert(s@ == old(s)@ + prefixed_lines(lines(chars@), prefix@));
}

/// Appends `text` to `s` without the whitespace at its end.
pub fn push_trimmed_end(s: &mut String, text: &str)
    ensures
        final(s)@ == old(s)@ + trimmed_end(text@),
{
    let chars = chars_of(text);
    let mut end: usize = chars.len();
    assert(chars@.take(end as int) == chars@);
    while end > 0 && is_whitespace_char(chars[end - 1])
        invariant
            end <= chars.len(),
            trimmed_end(chars@) == trimmed_end(chars@.take(end as int)),
        decreases end,
    {
        assert(chars@.take(end as int).drop_last() == chars@.take(end as int - 1));
        end -= 1;
    }
    push_range(s, &chars, 0, end);
    assert(chars@.subrange(0, end as int) == chars@.take(end as int));
}

/// Appends `text` to `s`.
pub fn push_str(s: &mut String, text: &str)
    ensures
        final(s)@ == old(s)@ + text@,
{
    s.append(text);
}

/// Whether `c` is whitespace.
pub fn is_whitespace_char(c: char) -> (r: bool)
    ensures
        r == is_whitespace(c),
{
    ('\u{9}' <= c && c <= '\u{D}') || c == ' ' || c == '\u{85}' || c == '\u{A0}' || c
        == '\u{1680}' || ('\u{2000}' <= c && c <= '\u{200A}') || c == '\u{2028}' || c
        == '\u{2029}' || c == '\u{202F}' || c == '\u{205F}' || c == '\u{3000}'
}

} // verus!
