//! Character-level text handling: lines, trimming, splitting and numbers, each
//! stated over sequences of characters.
use vstd::prelude::*;

verus! {

broadcast use vstd::string::group_string_axioms;

/// The characters of a string slice.
pub fn chars_of(s: &str) -> (r: Vec<char>)
    ensures
        r@ == s@,
{
    let mut v: Vec<char> = Vec::new();
    for c in it: s.chars()
        invariant
            it.seq() == s@,
            v@ == it.seq().take(it.index() as int),
    {
        v.push(c);
    }
    assert(v@ =~= s@);
    v
}

/// `String::push`: appends one character.
#[verifier::external_body]
fn push_char(s: &mut String, c: char)
    ensures
        final(s)@ == old(s)@.push(c),
{
    s.push(c);
}

/// A string holding the given characters.
pub fn string_from_chars(v: &[char]) -> (r: String)
    ensures
        r@ == v@,
{
    let mut s = String::new();
    let mut i: usize = 0;
    while i < v.len()
        invariant
            i <= v.len(),
            s@ == v@.take(i as int),
        decreases v.len() - i,
    {
        push_char(&mut s, v[i]);
        i = i + 1;
        assert(s@ =~= v@.take(i as int));
    }
    assert(v@.take(v@.len() as int) =~= v@);
    s
}

/// Characters with the Unicode `White_Space` property.
pub open spec fn is_white_space(c: char) -> bool {
    let u = c as u32;
    (0x9 <= u <= 0xD) || u == 0x20 || u == 0x85 || u == 0xA0 || u == 0x1680
        || (0x2000 <= u <= 0x200A) || u == 0x2028 || u == 0x2029 || u == 0x202F
        || u == 0x205F || u == 0x3000
}

/// Whether a character has the Unicode `White_Space` property (what
/// `char::is_whitespace` answers).
pub(crate) fn char_is_whitespace(c: char) -> (r: bool)
    ensures
        r == is_white_space(c),
{
    let u = c as u32;
    (0x9 <= u && u <= 0xD) || u == 0x20 || u == 0x85 || u == 0xA0 || u == 0x1680
        || (0x2000 <= u && u <= 0x200A) || u == 0x2028 || u == 0x2029 || u == 0x202F
        || u == 0x205F || u == 0x3000
}

/// The sequence without its leading white space.
pub open spec fn trim_start_spec(s: Seq<char>) -> Seq<char>
    decreases s.len(),
{
    if s.len() > 0 && is_white_space(s[0]) {
        trim_start_spec(s.drop_first())
    } else {
        s
    }
}

/// The sequence without its trailing white space.
pub open spec fn trim_end_spec(s: Seq<char>) -> Seq<char>
    decreases s.len(),
{
    if s.len() > 0 && is_white_space(s.last()) {
        trim_end_spec(s.drop_last())
    } else {
        s
    }
}

/// The sequence without leading and trailing white space (`str::trim`).
pub open spec fn trim_spec(s: Seq<char>) -> Seq<char> {
    trim_end_spec(trim_start_spec(s))
}

proof fn lemma_trim_start_step(s: Seq<char>, a: int)
    requires
        0 <= a < s.len(),
        is_white_space(s[a]),
    ensures
        trim_start_spec(s.subrange(a, s.len() as int)) == trim_start_spec(s.subrange(a + 1, s.len() as int)),
{
    assert(s.subrange(a, s.len() as int).drop_first() =~= s.subrange(a + 1, s.len() as int));
}

proof fn lemma_trim_end_step(s: Seq<char>, b: int)
    requires
        0 < b <= s.len(),
        is_white_space(s[b - 1]),
    ensures
        trim_end_spec(s.subrange(0, b)) == trim_end_spec(s.subrange(0, b - 1)),
{
    assert(s.subrange(0, b).drop_last() =~= s.subrange(0, b - 1));
}

/// Removes leading and trailing white space.
pub fn trim(s: &[char]) -> (r: Vec<char>)
    ensures
        r@ == trim_spec(s@),
{
    let mut a: usize = 0;
    assert(s@.subrange(0, s@.len() as int) =~= s@);
    while a < s.len() && char_is_whitespace(s[a])
        invariant
            a <= s.len(),
            trim_start_spec(s@) == trim_start_spec(s@.subrange(a as int, s@.len() as int)),
        decreases s.len() - a,
    {
        proof {
            lemma_trim_start_step(s@, a as int);
        }
        a = a + 1;
    }
    let ghost t = s@.subrange(a as int, s@.len() as int);
    assert(trim_start_spec(s@) == t);
    let mut b: usize = s.len();
    assert(t.subrange(0, t.len() as int) =~= t);
    while b > a && char_is_whitespace(s[b - 1])
        invariant
            a <= b <= s.len(),
            t == s@.subrange(a as int, s@.len() as int),
            trim_end_spec(t) == trim_end_spec(t.subrange(0, b - a)),
        decreases b,
    {
        proof {
            lemma_trim_end_step(t, (b - a) as int);
        }
        b = b - 1;
    }
    let ghost u = t.subrange(0, b - a);
    assert(trim_end_spec(u) == u);
    let mut r: Vec<char> = Vec::new();
    let mut i: usize = a;
    while i < b
        invariant
            a <= i <= b <= s.len(),
            u == s@.subrange(a as int, b as int),
            r@ == s@.subrange(a as int, i as int),
        decreases b - i,
    {
        r.push(s[i]);
        i = i + 1;
        assert(r@ =~= s@.subrange(a as int, i as int));
    }
    assert(u =~= s@.subrange(a as int, b as int));
    r
}

/// The pieces of `s` between `'\n'` characters, always one more than there are
/// newlines.
pub open spec fn newline_pieces(s: Seq<char>) -> Seq<Seq<char>>
    decreases s.len(),
{
    if s.len() == 0 {
        seq![Seq::<char>::empty()]
    } else if s.last() == '\n' {
        newline_pieces(s.drop_last()).push(Seq::<char>::empty())
    } else {
        let p = newline_pieces(s.drop_last());
        p.update(p.len() - 1, p.last().push(s.last()))
    }
}

/// A line without the `'\r'` of a `"\r\n"` ending.
pub open spec fn strip_cr(line: Seq<char>) -> Seq<char> {
    if line.len() > 0 && line.last() == '\r' {
        line.drop_last()
    } else {
        line
    }
}

/// The lines of a text as `str::lines` gives them: split at `'\n'`, a `'\r'`
/// just before a `'\n'` removed, and no empty line after a final newline.
pub open spec fn lines_spec(s: Seq<char>) -> Seq<Seq<char>> {
    let p = newline_pieces(s);
    let ended = p.drop_last().map_values(|l: Seq<char>| strip_cr(l));
    if p.last().len() > 0 {
        ended.push(p.last())
    } else {
        ended
    }
}

proof fn lemma_newline_pieces_nonempty(s: Seq<char>)
    ensures
        newline_pieces(s).len() >= 1,
    decreases s.len(),
{
    if s.len() > 0 {
        lemma_newline_pieces_nonempty(s.drop_last());
    }
}

/// A line without a newline, written after text that ends a line (or after
/// nothing), becomes the last piece.
pub(crate) proof fn lemma_pieces_line(a: Seq<char>, line: Seq<char>)
    requires
        a.len() == 0 || a.last() == '\n',
        forall|i: int| 0 <= i < line.len() ==> line[i] != '\n',
    ensures
        newline_pieces(a + line) == newline_pieces(a).drop_last().push(line),
    decreases line.len(),
{
    if line.len() == 0 {
        assert(line =~= Seq::<char>::empty());
        assert(a + line =~= a);
        if a.len() == 0 {
            assert(newline_pieces(a).drop_last().push(line) =~= seq![Seq::<char>::empty()]);
        } else {
            assert(newline_pieces(a).drop_last().push(line) =~= newline_pieces(a));
        }
    } else {
        let shorter = line.drop_last();
        lemma_pieces_line(a, shorter);
        assert((a + line).drop_last() =~= a + shorter);
        assert((a + line).last() == line.last());
        let p = newline_pieces(a + shorter);
        assert(p.update(p.len() - 1, p.last().push(line.last())) =~= newline_pieces(a).drop_last().push(line)) by {
            assert(shorter.push(line.last()) =~= line);
        }
    }
}

/// Text that starts and ends with a character other than white space is its own trim.
pub(crate) proof fn lemma_trim_fixed(s: Seq<char>)
    requires
        s.len() > 0,
        !is_white_space(s[0]),
        !is_white_space(s.last()),
    ensures
        trim_spec(s) == s,
{
}

proof fn lemma_trim_start_len(s: Seq<char>)
    ensures
        trim_start_spec(s).len() <= s.len(),
    decreases s.len(),
{
    if s.len() > 0 && is_white_space(s[0]) {
        lemma_trim_start_len(s.drop_first());
    }
}

proof fn lemma_trim_end_len(s: Seq<char>)
    ensures
        trim_end_spec(s).len() <= s.len(),
    decreases s.len(),
{
    if s.len() > 0 && is_white_space(s.last()) {
        lemma_trim_end_len(s.drop_last());
    }
}

/// Text that is its own trim neither starts nor ends with white space.
pub(crate) proof fn lemma_trimmed_ends(s: Seq<char>)
    requires
        s.len() > 0,
        trim_spec(s) == s,
    ensures
        !is_white_space(s[0]),
        !is_white_space(s.last()),
{
    if is_white_space(s[0]) {
        lemma_trim_start_len(s.drop_first());
        lemma_trim_end_len(trim_start_spec(s));
    } else if is_white_space(s.last()) {
        lemma_trim_end_len(s.drop_last());
    }
}

/// The characters of a string vector, as a sequence of sequences.
pub open spec fn char_lines_view(v: Seq<Vec<char>>) -> Seq<Seq<char>> {
    v.map_values(|l: Vec<char>| l@)
}

fn strip_cr_exec(line: Vec<char>) -> (r: Vec<char>)
    ensures
        r@ == strip_cr(line@),
{
    let mut line = line;
    if line.len() > 0 && line[line.len() - 1] == '\r' {
        line.pop();
    }
    line
}

/// Splits a text into lines (`str::lines`).
pub fn split_lines(s: &[char]) -> (r: Vec<Vec<char>>)
    ensures
        char_lines_view(r@) == lines_spec(s@),
{
    let mut done: Vec<Vec<char>> = Vec::new();
    let mut current: Vec<char> = Vec::new();
    let mut i: usize = 0;
    assert(s@.take(0) =~= Seq::<char>::empty());
    while i < s.len()
        invariant
            i <= s.len(),
            newline_pieces(s@.take(i as int)).len() >= 1,
            char_lines_view(done@) == newline_pieces(s@.take(i as int)).drop_last().map_values(|l: Seq<char>| strip_cr(l)),
            current@ == newline_pieces(s@.take(i as int)).last(),
        decreases s.len() - i,
    {
        let ghost before = s@.take(i as int);
        let c = s[i];
        assert(s@.take(i + 1).drop_last() =~= before);
        assert(s@.take(i + 1).last() == c);
        proof {
            lemma_newline_pieces_nonempty(before);
        }
        if c == '\n' {
            let ghost old_done = done@;
            let line = strip_cr_exec(current);
            done.push(line);
            current = Vec::new();
            proof {
                let p = newline_pieces(before);
                assert(newline_pieces(s@.take(i + 1)) == p.push(Seq::<char>::empty()));
                assert(newline_pieces(s@.take(i + 1)).drop_last() =~= p);
                assert(p =~= p.drop_last().push(p.last()));
                assert(char_lines_view(done@) =~= char_lines_view(old_done).push(strip_cr(p.last())));
                assert(p.map_values(|l: Seq<char>| strip_cr(l)) =~= p.drop_last().map_values(|l: Seq<char>| strip_cr(l)).push(strip_cr(p.last())));
            }
        } else {
            current.push(c);
            assert(newline_pieces(s@.take(i + 1)).drop_last() =~= newline_pieces(before).drop_last());
        }
        i = i + 1;
    }
    assert(s@.take(s@.len() as int) =~= s@);
    if current.len() > 0 {
        done.push(current);
        assert(char_lines_view(done@) =~= lines_spec(s@));
    }
    done
}

/// Index of the first `c` in `s`.
pub open spec fn find_spec(s: Seq<char>, c: char) -> Option<nat>
    decreases s.len(),
{
    if s.len() == 0 {
        None
    } else if s[0] == c {
        Some(0)
    } else {
        match find_spec(s.drop_first(), c) {
            Some(k) => Some(k + 1),
            None => None,
        }
    }
}

pub(crate) proof fn lemma_find_spec(s: Seq<char>, c: char, k: int)
    requires
        0 <= k <= s.len(),
        forall|j: int| 0 <= j < k ==> s[j] != c,
    ensures
        k < s.len() && s[k] == c ==> find_spec(s, c) == Some(k as nat),
        k == s.len() ==> find_spec(s, c) is None,
    decreases k,
{
    if k > 0 {
        lemma_find_spec(s.drop_first(), c, k - 1);
    }
}

/// The text before and after the first `c`, if there is one (`str::split_once`).
pub open spec fn split_once_spec(s: Seq<char>, c: char) -> Option<(Seq<char>, Seq<char>)> {
    match find_spec(s, c) {
        Some(k) => Some((s.take(k as int), s.skip(k as int + 1))),
        None => None,
    }
}

/// Splits at the first `c`.
pub fn split_once(s: &[char], c: char) -> (r: Option<(Vec<char>, Vec<char>)>)
    ensures
        match split_once_spec(s@, c) {
            Some((a, b)) => (r matches Some((x, y)) && x@ == a && y@ == b),
            None => r is None,
        },
{
    let mut k: usize = 0;
    while k < s.len() && s[k] != c
        invariant
            k <= s.len(),
            forall|j: int| 0 <= j < k ==> s@[j] != c,
        decreases s.len() - k,
    {
        k = k + 1;
    }
    proof {
        lemma_find_spec(s@, c, k as int);
    }
    if k == s.len() {
        return None;
    }
    let mut head: Vec<char> = Vec::new();
    let mut i: usize = 0;
    while i < k
        invariant
            i <= k < s.len(),
            head@ == s@.take(i as int),
        decreases k - i,
    {
        head.push(s[i]);
        i = i + 1;
        assert(head@ =~= s@.take(i as int));
    }
    let mut tail: Vec<char> = Vec::new();
    let mut j: usize = k + 1;
    while j < s.len()
        invariant
            k < j <= s.len(),
            tail@ == s@.subrange(k + 1, j as int),
        decreases s.len() - j,
    {
        tail.push(s[j]);
        j = j + 1;
        assert(tail@ =~= s@.subrange(k + 1, j as int));
    }
    assert(tail@ =~= s@.skip(k + 1));
    Some((head, tail))
}

/// Whether two texts hold the same characters.
pub fn same_text(a: &str, b: &str) -> (r: bool)
    ensures
        r == (a@ == b@),
{
    let x = chars_of(a);
    let y = chars_of(b);
    if x.len() != y.len() {
        return false;
    }
    let mut i: usize = 0;
    while i < x.len()
        invariant
            x@ == a@,
            y@ == b@,
            x.len() == y.len(),
            i <= x.len(),
            forall|j: int| 0 <= j < i ==> x@[j] == y@[j],
        decreases x.len() - i,
    {
        if x[i] != y[i] {
            return false;
        }
        i = i + 1;
    }
    assert(x@ =~= y@);
    true
}

/// `s` begins with `prefix`.
pub open spec fn starts_with_spec(s: Seq<char>, prefix: Seq<char>) -> bool {
    prefix.len() <= s.len() && s.take(prefix.len() as int) == prefix
}

/// `s` ends with `suffix`.
pub open spec fn ends_with_spec(s: Seq<char>, suffix: Seq<char>) -> bool {
    suffix.len() <= s.len() && s.skip(s.len() - suffix.len()) == suffix
}

/// Whether `s` begins with `prefix`.
pub fn starts_with(s: &[char], prefix: &[char]) -> (r: bool)
    ensures
        r == starts_with_spec(s@, prefix@),
{
    if prefix.len() > s.len() {
        return false;
    }
    let mut i: usize = 0;
    while i < prefix.len()
        invariant
            prefix.len() <= s.len(),
            i <= prefix.len(),
            forall|j: int| 0 <= j < i ==> s@[j] == prefix@[j],
        decreases prefix.len() - i,
    {
        if s[i] != prefix[i] {
            assert(s@.take(prefix@.len() as int)[i as int] != prefix@[i as int]);
            return false;
        }
        i = i + 1;
    }
    assert(s@.take(prefix@.len() as int) =~= prefix@);
    true
}

/// Whether `s` ends with `suffix`.
pub fn ends_with(s: &[char], suffix: &[char]) -> (r: bool)
    ensures
        r == ends_with_spec(s@, suffix@),
{
    if suffix.len() > s.len() {
        return false;
    }
    let base = s.len() - suffix.len();
    let mut i: usize = 0;
    while i < suffix.len()
        invariant
            base + suffix.len() == s.len(),
            i <= suffix.len(),
            forall|j: int| 0 <= j < i ==> s@[base + j] == suffix@[j],
        decreases suffix.len() - i,
    {
        if s[base + i] != suffix[i] {
            assert(s@.skip(base as int)[i as int] != suffix@[i as int]);
            return false;
        }
        i = i + 1;
    }
    assert(s@.skip(base as int) =~= suffix@);
    true
}

/// The value of a sequence of decimal digits.
pub open spec fn digits_value(d: Seq<char>) -> nat
    decreases d.len(),
{
    if d.len() == 0 {
        0
    } else {
        digits_value(d.drop_last()) * 10 + (d.last() as nat - '0' as nat) as nat
    }
}

/// Every character is an ASCII digit.
pub open spec fn all_digits(d: Seq<char>) -> bool {
    forall|i: int| 0 <= i < d.len() ==> '0' <= #[trigger] d[i] <= '9'
}

/// What `u32::from_str` gives: an optional `'+'`, then one or more ASCII digits
/// whose value fits in 32 bits.
pub open spec fn parse_u32_spec(s: Seq<char>) -> Option<u32> {
    let digits = if s.len() > 0 && s[0] == '+' { s.drop_first() } else { s };
    if digits.len() > 0 && all_digits(digits) && digits_value(digits) <= u32::MAX {
        Some(digits_value(digits) as u32)
    } else {
        None
    }
}

proof fn lemma_digits_value_grows(d: Seq<char>, k: int)
    requires
        0 <= k <= d.len(),
        all_digits(d),
    ensures
        digits_value(d.take(k)) <= digits_value(d),
    decreases d.len() - k,
{
    if k < d.len() {
        lemma_digits_value_grows(d, k + 1);
        assert(d.take(k + 1).drop_last() =~= d.take(k));
    } else {
        assert(d.take(k) =~= d);
    }
}

/// Parses a decimal `u32` as `u32::from_str` does.
pub fn parse_u32(s: &[char]) -> (r: Option<u32>)
    ensures
        r == parse_u32_spec(s@),
{
    let ghost digits = if s@.len() > 0 && s@[0] == '+' { s@.drop_first() } else { s@ };
    let start: usize = if s.len() > 0 && s[0] == '+' { 1 } else { 0 };
    assert(digits =~= s@.skip(start as int));
    if start == s.len() {
        return None;
    }
    let mut value: u64 = 0;
    let mut i: usize = start;
    let mut overflow = false;
    while i < s.len()
        invariant
            start <= i <= s.len(),
            digits == s@.skip(start as int),
            digits == (if s@.len() > 0 && s@[0] == '+' { s@.drop_first() } else { s@ }),
            forall|j: int| start <= j < i ==> '0' <= #[trigger] s@[j] <= '9',
            !overflow ==> value == digits_value(digits.take(i - start)),
            !overflow ==> value <= u32::MAX,
            overflow ==> digits_value(digits.take(i - start)) > u32::MAX,
        decreases s.len() - i,
    {
        let c = s[i];
        if c < '0' || c > '9' {
            assert(!all_digits(digits)) by {
                assert(digits[i - start] == c);
            }
            return None;
        }
        let ghost before = digits.take(i - start);
        assert(digits.take(i - start + 1).drop_last() =~= before);
        assert(digits.take(i - start + 1).last() == c);
        if !overflow {
            let d = (c as u32 - '0' as u32) as u64;
            value = value * 10 + d;
            if value > u32::MAX as u64 {
                overflow = true;
            }
        } else {
            assert(digits_value(digits.take(i - start + 1)) >= digits_value(before));
        }
        i = i + 1;
    }
    assert(digits.take(i - start) =~= digits);
    assert(all_digits(digits));
    if overflow {
        return None;
    }
    Some(value as u32)
}

/// Decimal representation of a number.
pub open spec fn decimal_spec(n: nat) -> Seq<char>
    decreases n,
{
    let digit = (48 + n % 10) as char;
    if n < 10 {
        seq![digit]
    } else {
        decimal_spec(n / 10).push(digit)
    }
}

/// The decimal representation of a number (what `u64::to_string` writes).
pub(crate) fn decimal_string(n: u64) -> (r: String)
    ensures
        r@ == decimal_spec(n as nat),
    decreases n,
{
    let c = ((48 + n % 10) as u8) as char;
    let mut s = if n < 10 {
        String::from_str("")
    } else {
        decimal_string(n / 10)
    };
    proof {
        reveal_strlit("");
    }
    push_char(&mut s, c);
    s
}

} // verus!
