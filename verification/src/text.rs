//! Character-level text handling: control-character filtering, truncation,
//! ASCII case folding, trimming, line splitting and decimal rendering.
use vstd::prelude::*;
use vstd::string::*;

verus! {

broadcast use vstd::string::group_string_axioms;

// ---------------------------------------------------------------------------
// Strings built one character at a time
// ---------------------------------------------------------------------------

/// `String::push`: appends one character at the end of the string.
#[verifier::external_body]
pub(crate) fn push_char(s: &mut String, c: char)
    ensures
        final(s)@ == old(s)@.push(c),
{
    s.push(c);
}

/// The characters of `s`, in order.
pub fn chars_of(s: &str) -> (v: Vec<char>)
    ensures
        v@ == s@,
{
    let mut v: Vec<char> = Vec::new();
    for c in it: s.chars()
        invariant
            v@ == it.seq().take(it.index() as int),
            it.seq() == s@,
    {
        v.push(c);
    }
    v
}

/// The string made of the characters `v[lo..hi]`.
pub fn string_of_range(v: &Vec<char>, lo: usize, hi: usize) -> (s: String)
    requires
        lo <= hi <= v@.len(),
    ensures
        s@ == v@.subrange(lo as int, hi as int),
{
    let mut s = String::new();
    let mut i = lo;
    while i < hi
        invariant
            lo <= i <= hi <= v@.len(),
            s@ == v@.subrange(lo as int, i as int),
        decreases hi - i,
    {
        push_char(&mut s, v[i]);
        assert(v@.subrange(lo as int, i + 1) == v@.subrange(lo as int, i as int).push(v@[i as int]));
        i = i + 1;
    }
    s
}

/// The string made of all characters of `v`.
pub fn string_of(v: &Vec<char>) -> (s: String)
    ensures
        s@ == v@,
{
    let s = string_of_range(v, 0, v.len());
    assert(v@.subrange(0, v@.len() as int) == v@);
    s
}

/// A fresh string holding the characters of `s`.
pub fn owned(s: &str) -> (r: String)
    ensures
        r@ == s@,
{
    String::from_str(s)
}

/// `a` followed by `b`.
pub fn concat(a: &str, b: &str) -> (r: String)
    ensures
        r@ == a@ + b@,
{
    let mut r = String::from_str(a);
    r.append(b);
    r
}

/// Whether two strings hold the same characters.
pub fn same_text(a: &str, b: &str) -> (r: bool)
    ensures
        r == (a@ == b@),
{
    let x = chars_of(a);
    let y = chars_of(b);
    if x.len() != y.len() {
        return false;
    }
    let mut i: usize = 0;
    while i < x.len()
        invariant
            x@ == a@,
            y@ == b@,
            x@.len() == y@.len(),
            i <= x@.len(),
            forall|j: int| 0 <= j < i ==> x@[j] == y@[j],
        decreases x@.len() - i,
    {
        if x[i] != y[i] {
            return false;
        }
        i = i + 1;
    }
    assert(x@ =~= y@);
    true
}

// ---------------------------------------------------------------------------
// Control characters
// ---------------------------------------------------------------------------

/// Whether a character belongs to Unicode's `Cc` (control) category, as
/// `char::is_control` decides.
pub open spec fn is_control_spec(c: char) -> bool {
    (c as u32) <= 0x1f || (0x7f <= (c as u32) && (c as u32) <= 0x9f)
}

/// Decides `is_control_spec`.
pub fn is_control(c: char) -> (r: bool)
    ensures
        r == is_control_spec(c),
{
    let u = c as u32;
    u <= 0x1f || (0x7f <= u && u <= 0x9f)
}

/// Text made safe to print on a terminal: a tab becomes a space and every other
/// control character is dropped; all else is kept in order.
pub open spec fn sanitize_spec(s: Seq<char>) -> Seq<char>
    decreases s.len(),
{
    if s.len() == 0 {
        Seq::empty()
    } else {
        let rest = sanitize_spec(s.drop_last());
        let c = s.last();
        if c == '\t' {
            rest.push(' ')
        } else if is_control_spec(c) {
            rest
        } else {
            rest.push(c)
        }
    }
}

/// Removes terminal control characters from text that comes from outside
/// (package names, descriptions, command output); tabs become spaces.
pub fn sanitize_text(value: &str) -> (r: String)
    ensures
        r@ == sanitize_spec(value@),
{
    let mut r = String::new();
    for c in it: value.chars()
        invariant
            it.seq() == value@,
            r@ == sanitize_spec(it.seq().take(it.index() as int)),
    {
        let ghost before = it.seq().take(it.index() as int);
        assert(it.seq().take(it.index() + 1).drop_last() == before);
        if c == '\t' {
            push_char(&mut r, ' ');
        } else if !is_control(c) {
            push_char(&mut r, c);
        }
    }
    assert(value@.take(value@.len() as int) == value@);
    r
}

/// One line of command output, made safe to print.
pub fn sanitize_log(line: &str) -> (r: String)
    ensures
        r@ == sanitize_spec(line@),
{
    sanitize_text(line)
}

/// Sanitized text holds no control character.
pub proof fn lemma_sanitized_has_no_control(s: Seq<char>)
    ensures
        forall|i: int| 0 <= i < sanitize_spec(s).len() ==> !is_control_spec(#[trigger] sanitize_spec(s)[i]),
    decreases s.len(),
{
    if s.len() > 0 {
        lemma_sanitized_has_no_control(s.drop_last());
        let rest = sanitize_spec(s.drop_last());
        assert forall|i: int| 0 <= i < sanitize_spec(s).len() implies !is_control_spec(
            #[trigger] sanitize_spec(s)[i],
        ) by {
            if i < rest.len() {
                assert(sanitize_spec(s)[i] == rest[i]);
            }
        }
    }
}

/// Sanitizing twice gives what sanitizing once gives.
pub proof fn lemma_sanitize_idempotent(s: Seq<char>)
    ensures
        sanitize_spec(sanitize_spec(s)) == sanitize_spec(s),
    decreases s.len(),
{
    if s.len() > 0 {
        lemma_sanitize_idempotent(s.drop_last());
        let rest = sanitize_spec(s.drop_last());
        let c = s.last();
        if c == '\t' {
            assert(rest.push(' ').drop_last() == rest);
        } else if !is_control_spec(c) {
            assert(rest.push(c).drop_last() == rest);
        }
    }
}

// ---------------------------------------------------------------------------
// Truncation
// ---------------------------------------------------------------------------

/// At most `max` characters of `s`: `s` itself when it fits, otherwise its
/// first `max - 1` characters followed by an ellipsis; nothing when `max` is 0.
pub open spec fn truncate_spec(s: Seq<char>, max: nat) -> Seq<char> {
    if max == 0 {
        Seq::empty()
    } else if s.len() <= max {
        s
    } else {
        s.take(max - 1).push('\u{2026}')
    }
}

/// Shortens `value` to at most `max` characters, marking a cut with an ellipsis.
pub fn truncate(value: &str, max: usize) -> (r: String)
    ensures
        r@ == truncate_spec(value@, max as nat),
        r@.len() <= max,
{
    if max == 0 {
        return String::new();
    }
    let v = chars_of(value);
    if v.len() <= max {
        return owned(value);
    }
    let mut r = string_of_range(&v, 0, max - 1);
    push_char(&mut r, '\u{2026}');
    r
}

// ---------------------------------------------------------------------------
// ASCII case folding
// ---------------------------------------------------------------------------

/// `c` with an ASCII capital letter turned into its small letter.
pub open spec fn ascii_lower(c: char) -> char {
    if 'A' <= c && c <= 'Z' {
        ((c as u32) + 32) as char
    } else {
        c
    }
}

/// `s` with every ASCII capital letter turned into its small letter.
pub open spec fn lower_spec(s: Seq<char>) -> Seq<char> {
    Seq::new(s.len(), |i: int| ascii_lower(s[i]))
}

/// Decides `ascii_lower`.
pub fn to_ascii_lower(c: char) -> (r: char)
    ensures
        r == ascii_lower(c),
{
    if 'A' <= c && c <= 'Z' {
        let u = c as u8;
        assert(u == c as u32);
        let l = u + 32;
        l as char
    } else {
        c
    }
}

/// The characters of `s` with ASCII capitals folded to small letters.
pub fn lowered_chars(s: &str) -> (v: Vec<char>)
    ensures
        v@ == lower_spec(s@),
{
    let mut v: Vec<char> = Vec::new();
    for c in it: s.chars()
        invariant
            it.seq() == s@,
            v@.len() == it.index(),
            forall|j: int| 0 <= j < it.index() ==> v@[j] == ascii_lower(#[trigger] s@[j]),
    {
        v.push(to_ascii_lower(c));
    }
    assert(v@ =~= lower_spec(s@));
    v
}

// ---------------------------------------------------------------------------
// Trimming and line splitting
// ---------------------------------------------------------------------------

/// Unicode `White_Space`, the set that `str::trim` strips.
pub open spec fn is_whitespace_spec(c: char) -> bool {
    let u = c as u32;
    (0x9 <= u && u <= 0xd) || u == 0x20 || u == 0x85 || u == 0xa0 || u == 0x1680 || (0x2000 <= u
        && u <= 0x200a) || u == 0x2028 || u == 0x2029 || u == 0x202f || u == 0x205f || u == 0x3000
}

/// Decides `is_whitespace_spec`.
pub fn is_whitespace(c: char) -> (r: bool)
    ensures
        r == is_whitespace_spec(c),
{
    let u = c as u32;
    (0x9 <= u && u <= 0xd) || u == 0x20 || u == 0x85 || u == 0xa0 || u == 0x1680 || (0x2000 <= u
        && u <= 0x200a) || u == 0x2028 || u == 0x2029 || u == 0x202f || u == 0x205f || u == 0x3000
}

/// `s` without its leading white space.
pub open spec fn trim_start_spec(s: Seq<char>) -> Seq<char>
    decreases s.len(),
{
    if s.len() > 0 && is_whitespace_spec(s[0]) {
        trim_start_spec(s.drop_first())
    } else {
        s
    }
}

/// `s` without its trailing white space.
pub open spec fn trim_end_spec(s: Seq<char>) -> Seq<char>
    decreases s.len(),
{
    if s.len() > 0 && is_whitespace_spec(s.last()) {
        trim_end_spec(s.drop_last())
    } else {
        s
    }
}

/// `s` without leading and trailing white space.
pub open spec fn trim_spec(s: Seq<char>) -> Seq<char> {
    trim_end_spec(trim_start_spec(s))
}

/// The bounds of `v[lo..hi]` once trimmed.
fn trim_bounds(v: &Vec<char>, lo: usize, hi: usize) -> (r: (usize, usize))
    requires
        lo <= hi <= v@.len(),
    ensures
        lo <= r.0 <= r.1 <= hi,
        v@.subrange(r.0 as int, r.1 as int) == trim_spec(v@.subrange(lo as int, hi as int)),
{
    let mut a = lo;
    while a < hi && is_whitespace(v[a])
        invariant
            lo <= a <= hi <= v@.len(),
            trim_start_spec(v@.subrange(lo as int, hi as int)) == trim_start_spec(
                v@.subrange(a as int, hi as int),
            ),
        decreases hi - a,
    {
        assert(v@.subrange(a as int, hi as int).drop_first() == v@.subrange(a + 1, hi as int));
        a = a + 1;
    }
    assert(trim_start_spec(v@.subrange(a as int, hi as int)) == v@.subrange(a as int, hi as int));
    let mut b = hi;
    while b > a && is_whitespace(v[b - 1])
        invariant
            lo <= a <= b <= hi <= v@.len(),
            trim_end_spec(v@.subrange(a as int, hi as int)) == trim_end_spec(
                v@.subrange(a as int, b as int),
            ),
        decreases b - a,
    {
        assert(v@.subrange(a as int, b as int).drop_last() == v@.subrange(a as int, b - 1));
        b = b - 1;
    }
    assert(trim_end_spec(v@.subrange(a as int, b as int)) == v@.subrange(a as int, b as int));
    (a, b)
}

/// The trimmed text of `s`.
pub fn trimmed(s: &str) -> (r: String)
    ensures
        r@ == trim_spec(s@),
{
    let v = chars_of(s);
    let (a, b) = trim_bounds(&v, 0, v.len());
    assert(v@.subrange(0, v@.len() as int) == v@);
    string_of_range(&v, a, b)
}

/// The index of the last line feed in `s`, or -1.
pub open spec fn last_newline(s: Seq<char>) -> int
    decreases s.len(),
{
    if s.len() == 0 {
        -1
    } else if s.last() == '\n' {
        s.len() - 1
    } else {
        last_newline(s.drop_last())
    }
}

/// `t` as a one-element list when it is not empty, else the empty list.
pub open spec fn keep_nonempty(t: Seq<char>) -> Seq<Seq<char>> {
    if t.len() > 0 {
        seq![t]
    } else {
        Seq::empty()
    }
}

/// The entries of a listing: the lines of `s`, each trimmed, without the
/// lines that trimming leaves empty. (A carriage return before a line feed
/// is white space, so it is trimmed with the rest.)
pub open spec fn listed_spec(s: Seq<char>) -> Seq<Seq<char>>
    decreases s.len(),
{
    let k = last_newline(s);
    if k < 0 {
        keep_nonempty(trim_spec(s))
    } else {
        proof {
            lemma_last_newline_bound(s);
        }
        listed_spec(s.take(k)) + keep_nonempty(trim_spec(s.skip(k + 1)))
    }
}

pub proof fn lemma_last_newline_bound(s: Seq<char>)
    ensures
        -1 <= last_newline(s) < s.len(),
        last_newline(s) >= 0 ==> s[last_newline(s)] == '\n',
    decreases s.len(),
{
    if s.len() > 0 && s.last() != '\n' {
        lemma_last_newline_bound(s.drop_last());
    }
}

/// With no line feed in `s[a..]`, the last line feed of `s` is the one at
/// `a - 1`, if there is one there.
proof fn lemma_last_newline_at(s: Seq<char>, a: int)
    requires
        0 <= a <= s.len(),
        forall|j: int| a <= j < s.len() ==> s[j] != '\n',
        a > 0 ==> s[a - 1] == '\n',
        a == 0 ==> forall|j: int| 0 <= j < s.len() ==> s[j] != '\n',
    ensures
        last_newline(s) == a - 1,
    decreases s.len(),
{
    if s.len() > 0 {
        if s.len() - 1 >= a {
            lemma_last_newline_at(s.drop_last(), a);
        }
    }
}

/// Splitting `s` at the line feed just before `start` (if any), where no line
/// feed follows.
proof fn lemma_listed_split(s: Seq<char>, start: int)
    requires
        0 <= start <= s.len(),
        start > 0 ==> s[start - 1] == '\n',
        forall|j: int| start <= j < s.len() ==> s[j] != '\n',
    ensures
        start == 0 ==> listed_spec(s) == keep_nonempty(trim_spec(s)),
        start > 0 ==> listed_spec(s) == listed_spec(s.take(start - 1)) + keep_nonempty(
            trim_spec(s.subrange(start, s.len() as int)),
        ),
{
    lemma_last_newline_at(s, start);
    assert(s.skip(start) == s.subrange(start, s.len() as int));
    if start == 0 {
        assert(s.subrange(0, s.len() as int) == s);
    }
}

/// The non-empty trimmed lines of `text`, as `str::lines` followed by
/// `str::trim` and a filter on emptiness produce them.
pub fn listed_lines(text: &str) -> (r: Vec<String>)
    ensures
        r@.len() == listed_spec(text@).len(),
        forall|i: int| 0 <= i < r@.len() ==> (#[trigger] r@[i])@ == listed_spec(text@)[i],
{
    let v = chars_of(text);
    let ghost s = v@;
    let mut r: Vec<String> = Vec::new();
    let mut start: usize = 0;
    let mut i: usize = 0;
    while i < v.len()
        invariant
            v@ == s,
            s == text@,
            start <= i <= s.len(),
            start > 0 ==> s[start - 1] == '\n',
            forall|j: int| start <= j < i ==> s[j] != '\n',
            start == 0 ==> r@.len() == 0,
            start > 0 ==> r@.len() == listed_spec(s.take(start - 1)).len(),
            start > 0 ==> forall|j: int|
                0 <= j < r@.len() ==> (#[trigger] r@[j])@ == listed_spec(s.take(start - 1))[j],
        decreases s.len() - i,
    {
        if v[i] == '\n' {
            let (a, b) = trim_bounds(&v, start, i);
            let ghost prefix = s.take(i as int);
            let ghost old_r = r@;
            proof {
                lemma_listed_split(prefix, start as int);
                assert(prefix.subrange(start as int, i as int) == s.subrange(start as int, i as int));
                if start > 0 {
                    assert(prefix.take(start - 1) == s.take(start - 1));
                }
                assert(s.take(i + 1 - 1) == prefix);
            }
            if a < b {
                let piece = string_of_range(&v, a, b);
                r.push(piece);
            }
            proof {
                let expected = listed_spec(prefix);
                if start == 0 {
                    assert(expected == keep_nonempty(trim_spec(s.subrange(0, i as int))));
                } 
                assert(r@.len() == expected.len());
                assert forall|j: int| 0 <= j < r@.len() implies (#[trigger] r@[j])@ == expected[j] by {
                    if j < old_r.len() {
                        assert(r@[j] == old_r[j]);
                    }
                }
            }
            start = i + 1;
        }
        i = i + 1;
    }
    let (a, b) = trim_bounds(&v, start, v.len());
    let ghost old_r = r@;
    proof {
        lemma_listed_split(s, start as int);
    }
    if a < b {
        let piece = string_of_range(&v, a, b);
        r.push(piece);
    }
    proof {
        let expected = listed_spec(s);
        if start == 0 {
            assert(s.subrange(0, s.len() as int) == s);
        }
        assert(r@.len() == expected.len());
        assert forall|j: int| 0 <= j < r@.len() implies (#[trigger] r@[j])@ == expected[j] by {
            if j < old_r.len() {
                assert(r@[j] == old_r[j]);
            }
        }
    }
    r
}

// ---------------------------------------------------------------------------
// Decimal rendering
// ---------------------------------------------------------------------------

/// The digit character for `d < 10`.
pub open spec fn digit_char(d: nat) -> char {
    (('0' as u32) + d) as char
}

/// The decimal representation of `n`, without leading zeros.
pub open spec fn decimal_spec(n: nat) -> Seq<char>
    decreases n,
{
    if n < 10 {
        seq![digit_char(n)]
    } else {
        decimal_spec(n / 10).push(digit_char(n % 10))
    }
}

/// Appends the decimal representation of `n` to `s`.
pub fn push_decimal(s: &mut String, n: usize)
    ensures
        final(s)@ == old(s)@ + decimal_spec(n as nat),
    decreases n,
{
    if n >= 10 {
        push_decimal(s, n / 10);
    }
    let d = (n % 10) as u8;
    let c = (48u8 + d) as char;
    assert(c == digit_char((n % 10) as nat));
    push_char(s, c);
}

} // verus!
