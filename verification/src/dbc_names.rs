//! Rewriting the `BO_` lines of a DBC text: single underscores inside frame
//! names are removed.
use vstd::prelude::*;
use vstd::utf8::{encode_utf8, char_u32_cast};
use crate::text::{
    lemma_find_spec, find_spec, is_white_space,
    chars_of, string_from_chars, split_lines, split_once, starts_with, trim_start_spec, lines_spec,
    split_once_spec, starts_with_spec, char_lines_view,
};

verus! {

/// The byte `'_'`.
pub open spec fn is_underscore(b: u8) -> bool {
    b == 95
}

/// The byte at `i` is a single underscore: it has a neighbour on both sides and
/// neither neighbour is an underscore.
pub open spec fn single_underscore_at(b: Seq<u8>, i: int) -> bool {
    &&& is_underscore(b[i])
    &&& 0 < i
    &&& i + 1 < b.len()
    &&& !is_underscore(b[i - 1])
    &&& !is_underscore(b[i + 1])
}

/// The first `n` bytes of `b` without their single underscores, each byte
/// turned into the character of the same number.
pub open spec fn without_single_underscores(b: Seq<u8>, n: nat) -> Seq<char>
    decreases n,
{
    if n == 0 {
        Seq::empty()
    } else {
        let rest = without_single_underscores(b, (n - 1) as nat);
        if single_underscore_at(b, n - 1) {
            rest
        } else {
            rest.push(b[n - 1] as char)
        }
    }
}

/// The text without its trailing `c` characters (`str::trim_end_matches`).
pub open spec fn trim_end_char_spec(s: Seq<char>, c: char) -> Seq<char>
    decreases s.len(),
{
    if s.len() > 0 && s.last() == c {
        trim_end_char_spec(s.drop_last(), c)
    } else {
        s
    }
}

/// The first four pieces of a text split at spaces, the fourth holding the
/// rest (`str::splitn(4, ' ')`).
pub open spec fn splitn4_spec(s: Seq<char>) -> Seq<Seq<char>> {
    match split_once_spec(s, ' ') {
        None => seq![s],
        Some((a, r1)) => match split_once_spec(r1, ' ') {
            None => seq![a, r1],
            Some((b, r2)) => match split_once_spec(r2, ' ') {
                None => seq![a, b, r2],
                Some((c, r3)) => seq![a, b, c, r3],
            },
        },
    }
}

/// One line of the output, with its newline.
pub open spec fn fixed_line_spec(line: Seq<char>) -> Seq<char> {
    let parts = splitn4_spec(line);
    if starts_with_spec(trim_start_spec(line), "BO_"@) && parts.len() >= 3 {
        let name = trim_end_char_spec(parts[2], ':');
        let bytes = encode_utf8(name);
        let fixed = without_single_underscores(bytes, bytes.len());
        let rest = if parts.len() == 4 { " "@ + parts[3] } else { Seq::<char>::empty() };
        parts[0] + " "@ + parts[1] + " "@ + fixed + ":"@ + rest + "\n"@
    } else {
        line + "\n"@
    }
}

/// The output for a list of lines.
pub open spec fn fixed_lines_spec(lines: Seq<Seq<char>>) -> Seq<char>
    decreases lines.len(),
{
    if lines.len() == 0 {
        Seq::empty()
    } else {
        fixed_lines_spec(lines.drop_last()) + fixed_line_spec(lines.last())
    }
}

fn trim_start_chars(s: &[char]) -> (r: Vec<char>)
    ensures
        r@ == trim_start_spec(s@),
{
    let mut a: usize = 0;
    assert(s@.subrange(0, s@.len() as int) =~= s@);
    while a < s.len() && crate::text::char_is_whitespace(s[a])
        invariant
            a <= s.len(),
            trim_start_spec(s@) == trim_start_spec(s@.subrange(a as int, s@.len() as int)),
        decreases s.len() - a,
    {
        assert(s@.subrange(a as int, s@.len() as int).drop_first() =~= s@.subrange(a + 1, s@.len() as int));
        a = a + 1;
    }
    let mut r: Vec<char> = Vec::new();
    let mut i = a;
    while i < s.len()
        invariant
            a <= i <= s.len(),
            r@ == s@.subrange(a as int, i as int),
        decreases s.len() - i,
    {
        r.push(s[i]);
        i = i + 1;
        assert(r@ =~= s@.subrange(a as int, i as int));
    }
    r
}

fn trim_end_char(s: &[char], c: char) -> (r: Vec<char>)
    ensures
        r@ == trim_end_char_spec(s@, c),
{
    let mut v: Vec<char> = Vec::new();
    let mut i: usize = 0;
    while i < s.len()
        invariant
            i <= s.len(),
            v@ == s@.take(i as int),
        decreases s.len() - i,
    {
        v.push(s[i]);
        i = i + 1;
        assert(v@ =~= s@.take(i as int));
    }
    assert(v@ =~= s@);
    while v.len() > 0 && v[v.len() - 1] == c
        invariant
            trim_end_char_spec(s@, c) == trim_end_char_spec(v@, c),
        decreases v.len(),
    {
        v.pop();
    }
    v
}

fn splitn4(s: &[char]) -> (r: Vec<Vec<char>>)
    ensures
        char_lines_view(r@) == splitn4_spec(s@),
{
    let mut r: Vec<Vec<char>> = Vec::new();
    match split_once(s, ' ') {
        None => {
            r.push(copy_chars(s));
        },
        Some((a, r1)) => match split_once(r1.as_slice(), ' ') {
            None => {
                r.push(a);
                r.push(r1);
            },
            Some((b, r2)) => match split_once(r2.as_slice(), ' ') {
                None => {
                    r.push(a);
                    r.push(b);
                    r.push(r2);
                },
                Some((c, r3)) => {
                    r.push(a);
                    r.push(b);
                    r.push(c);
                    r.push(r3);
                },
            },
        },
    }
    assert(char_lines_view(r@) =~= splitn4_spec(s@));
    r
}

fn copy_chars(s: &[char]) -> (r: Vec<char>)
    ensures
        r@ == s@,
{
    let mut v: Vec<char> = Vec::new();
    let mut i: usize = 0;
    while i < s.len()
        invariant
            i <= s.len(),
            v@ == s@.take(i as int),
        decreases s.len() - i,
    {
        v.push(s[i]);
        i = i + 1;
        assert(v@ =~= s@.take(i as int));
    }
    assert(v@ =~= s@);
    v
}

fn append_chars(out: &mut Vec<char>, s: &[char])
    ensures
        final(out)@ == old(out)@ + s@,
{
    let ghost start = out@;
    let mut i: usize = 0;
    while i < s.len()
        invariant
            i <= s.len(),
            out@ == start + s@.take(i as int),
        decreases s.len() - i,
    {
        out.push(s[i]);
        i = i + 1;
        assert(out@ =~= start + s@.take(i as int));
    }
    assert(s@.take(s@.len() as int) =~= s@);
}

fn byte_char(b: u8) -> (c: char)
    ensures
        c == b as char,
{
    b as char
}

/// Removes the single underscores of a name's UTF-8 bytes, each kept byte
/// becoming the character of the same number.
fn fix_name(name: &[char]) -> (r: Vec<char>)
    ensures
        r@ == without_single_underscores(encode_utf8(name@), encode_utf8(name@).len()),
{
    let s = string_from_chars(name);
    let bytes = s.as_str().as_bytes();
    let ghost b = bytes@;
    assert(b == encode_utf8(name@));
    let mut fixed: Vec<char> = Vec::new();
    let mut i: usize = 0;
    while i < bytes.len()
        invariant
            b == bytes@,
            i <= bytes.len(),
            fixed@ == without_single_underscores(b, i as nat),
        decreases bytes.len() - i,
    {
        if bytes[i] == 95u8 && i > 0 && i + 1 < bytes.len() && bytes[i - 1] != 95u8 && bytes[i + 1] != 95u8 {
            i = i + 1;
            continue;
        }
        fixed.push(byte_char(bytes[i]));
        i = i + 1;
    }
    fixed
}

/// Rewrites the `BO_` lines of a DBC text: in each line whose text after leading
/// white space starts with `BO_`, the third space-separated piece (the frame name
/// and its colon) loses every single underscore; other lines are kept. Every line
/// of the result ends with a newline.
pub fn fix_dbc_bo_names(data: &str) -> (r: String)
    ensures
        r@ == fixed_lines_spec(lines_spec(data@)),
{
    let chars = chars_of(data);
    let lines = split_lines(chars.as_slice());
    let ghost all = char_lines_view(lines@);
    let bo = chars_of("BO_");
    let mut out: Vec<char> = Vec::new();
    let mut i: usize = 0;
    assert(all.take(0) =~= Seq::<Seq<char>>::empty());
    while i < lines.len()
        invariant
            i <= lines.len(),
            all == char_lines_view(lines@),
            bo@ == "BO_"@,
            out@ == fixed_lines_spec(all.take(i as int)),
        decreases lines.len() - i,
    {
        let line = lines[i].as_slice();
        assert(all.take(i + 1).drop_last() =~= all.take(i as int));
        assert(all.take(i + 1).last() == line@);
        let parts = splitn4(line);
        let head = trim_start_chars(line);
        if starts_with(head.as_slice(), bo.as_slice()) && parts.len() >= 3 {
            let name = trim_end_char(parts[2].as_slice(), ':');
            let fixed = fix_name(name.as_slice());
            append_chars(&mut out, parts[0].as_slice());
            out.push(' ');
            append_chars(&mut out, parts[1].as_slice());
            out.push(' ');
            append_chars(&mut out, fixed.as_slice());
            out.push(':');
            if parts.len() == 4 {
                out.push(' ');
                append_chars(&mut out, parts[3].as_slice());
            }
            out.push('\n');
            proof {
                reveal_strlit(" ");
                reveal_strlit(":");
                reveal_strlit("\n");
            }
        } else {
            append_chars(&mut out, line);
            out.push('\n');
            proof {
                reveal_strlit("\n");
            }
        }
        assert(out@ =~= fixed_lines_spec(all.take(i + 1)));
        i = i + 1;
    }
    assert(all.take(lines.len() as int) =~= all);
    string_from_chars(out.as_slice())
}

/// No character of `s` is `c`.
pub open spec fn lacks(s: Seq<char>, c: char) -> bool {
    forall|i: int| 0 <= i < s.len() ==> s[i] != c
}

/// Splitting `a`, `c`, `b` at the first `c` gives `a` and `b` when `a` holds no `c`.
proof fn lemma_split_once_at(a: Seq<char>, c: char, b: Seq<char>)
    requires
        lacks(a, c),
    ensures
        split_once_spec(a + seq![c] + b, c) == Some((a, b)),
{
    let s = a + seq![c] + b;
    lemma_find_spec(s, c, a.len() as int);
    assert(s.take(a.len() as int) =~= a);
    assert(s.skip(a.len() as int + 1) =~= b);
}

/// The pieces of a `BO_` line `BO_ <id> <name>:<tail>`.
proof fn lemma_bo_line_pieces(id: Seq<char>, name: Seq<char>, tail: Seq<char>)
    requires
        lacks(id, ' '),
        lacks(name, ' '),
        tail.len() == 0 || tail[0] == ' ',
    ensures
        ({
            let parts = splitn4_spec("BO_ "@ + id + " "@ + name + ":"@ + tail);
            &&& parts.len() >= 3
            &&& parts[0] == "BO_"@
            &&& parts[1] == id
            &&& parts[2] == name + ":"@
            &&& (if parts.len() == 4 { " "@ + parts[3] } else { Seq::<char>::empty() }) == tail
        }),
{
    reveal_strlit("BO_ ");
    reveal_strlit("BO_");
    reveal_strlit(" ");
    reveal_strlit(":");
    let sp = seq![' '];
    let nc = name + ":"@;
    let r2 = nc + tail;
    let r1 = id + sp + r2;
    assert("BO_ "@ + id + " "@ + name + ":"@ + tail =~= "BO_"@ + sp + r1);
    lemma_split_once_at("BO_"@, ' ', r1);
    lemma_split_once_at(id, ' ', r2);
    if tail.len() == 0 {
        assert(r2 =~= nc);
        lemma_find_spec(r2, ' ', r2.len() as int);
    } else {
        assert(r2 =~= nc + sp + tail.drop_first());
        lemma_split_once_at(nc, ' ', tail.drop_first());
        assert(" "@ + tail.drop_first() =~= tail);
    }
}

/// Rewriting a `BO_` line changes only the frame name: for a line
/// `BO_ <id> <name>:<tail>`, where `<tail>` is empty or starts with a space, the
/// output line is `BO_ <id> <fixed name>:<tail>` followed by a newline. The
/// keyword, the id and everything after the name's colon (DLC, transmitter)
/// are kept as they are.
pub proof fn lemma_bo_line_keeps_all_but_name(id: Seq<char>, name: Seq<char>, tail: Seq<char>)
    requires
        lacks(id, ' '),
        lacks(name, ' '),
        name.len() == 0 || name.last() != ':',
        tail.len() == 0 || tail[0] == ' ',
    ensures
        fixed_line_spec("BO_ "@ + id + " "@ + name + ":"@ + tail) == "BO_ "@ + id + " "@
            + without_single_underscores(encode_utf8(name), encode_utf8(name).len()) + ":"@ + tail + "\n"@,
{
    reveal_strlit("BO_ ");
    reveal_strlit("BO_");
    reveal_strlit(" ");
    reveal_strlit(":");
    let line = "BO_ "@ + id + " "@ + name + ":"@ + tail;
    assert(line[0] == 'B');
    assert(trim_start_spec(line) == line);
    assert(line.take(3) =~= "BO_"@);
    lemma_bo_line_pieces(id, name, tail);
    let nc = name + ":"@;
    assert(nc.drop_last() =~= name);
    assert(trim_end_char_spec(name, ':') == name);
    assert(trim_end_char_spec(nc, ':') == name);
    let fixed = without_single_underscores(encode_utf8(name), encode_utf8(name).len());
    assert("BO_"@ + " "@ + id + " "@ + fixed + ":"@ + tail + "\n"@ =~= "BO_ "@ + id + " "@ + fixed + ":"@ + tail + "\n"@);
}

/// On ASCII text the UTF-8 bytes are the characters' numbers, one byte each.
proof fn lemma_encode_ascii(s: Seq<char>)
    requires
        forall|i: int| 0 <= i < s.len() ==> (#[trigger] s[i] as u32) < 128,
    ensures
        encode_utf8(s).len() == s.len(),
        forall|i: int| 0 <= i < s.len() ==> (#[trigger] encode_utf8(s)[i]) as u32 == s[i] as u32,
    decreases s.len(),
{
    if s.len() > 0 {
        let v = s[0] as u32;
        assert(v < 128);
        assert((v & 0x7F) == v) by (bit_vector)
            requires
                v < 128,
        ;
        lemma_encode_ascii(s.drop_first());
        assert forall|i: int| 0 <= i < s.len() implies (#[trigger] encode_utf8(s)[i]) as u32 == s[i] as u32 by {
            if i > 0 {
                assert(s.drop_first()[i - 1] == s[i]);
            }
        }
    }
}

/// Bytes without any underscore are all kept, each as the character of its number.
proof fn lemma_no_underscore_kept(b: Seq<u8>, n: nat)
    requires
        n <= b.len(),
        forall|i: int| 0 <= i < b.len() ==> !is_underscore(#[trigger] b[i]),
    ensures
        without_single_underscores(b, n).len() == n,
        forall|i: int| 0 <= i < n ==> (#[trigger] without_single_underscores(b, n)[i]) == b[i] as char,
    decreases n,
{
    if n > 0 {
        lemma_no_underscore_kept(b, (n - 1) as nat);
        assert(!single_underscore_at(b, n - 1));
    }
}

/// A frame name of ASCII characters without any underscore is left as it is,
/// so a `BO_ <id> <name>:<tail>` line with such a name comes out unchanged.
pub proof fn lemma_plain_name_is_kept(id: Seq<char>, name: Seq<char>, tail: Seq<char>)
    requires
        forall|i: int| 0 <= i < name.len() ==> (#[trigger] name[i] as u32) < 128 && name[i] != '_',
        lacks(id, ' '),
        lacks(name, ' '),
        name.len() == 0 || name.last() != ':',
        tail.len() == 0 || tail[0] == ' ',
    ensures
        without_single_underscores(encode_utf8(name), encode_utf8(name).len()) == name,
        fixed_line_spec("BO_ "@ + id + " "@ + name + ":"@ + tail) == "BO_ "@ + id + " "@ + name + ":"@ + tail + "\n"@,
{
    lemma_encode_ascii(name);
    let b = encode_utf8(name);
    assert forall|i: int| 0 <= i < b.len() implies !is_underscore(#[trigger] b[i]) by {
        assert(name[i] as u32 == b[i] as u32);
        char_u32_cast(name[i], name[i] as u32);
        char_u32_cast('_', '_' as u32);
    }
    lemma_no_underscore_kept(b, b.len());
    assert forall|i: int| 0 <= i < name.len() implies without_single_underscores(b, b.len())[i] == name[i] by {
        assert(name[i] as u32 == b[i] as u32);
        assert(without_single_underscores(b, b.len())[i] == b[i] as char);
        char_u32_cast(name[i], name[i] as u32);
    }
    assert(without_single_underscores(b, b.len()) =~= name);
    lemma_bo_line_keeps_all_but_name(id, name, tail);
}

} // verus!
