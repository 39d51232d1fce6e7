//! Names of devices, controls and regions are put together from parts, and cards are
//! told by a part of their name.

use vstd::prelude::*;

verus! {

/// The lower-case hexadecimal digit of a number below 16.
pub open spec fn hex_digit(d: int) -> char {
    if d < 10 {
        (0x30 + d) as char
    } else {
        (0x57 + d) as char
    }
}

/// A byte as two hexadecimal digits.
pub open spec fn hex2(v: u8) -> Seq<char> {
    seq![hex_digit(v as int / 16), hex_digit(v as int % 16)]
}

/// A 16-bit number as four hexadecimal digits.
pub open spec fn hex4(v: u16) -> Seq<char> {
    hex2((v / 256) as u8) + hex2((v % 256) as u8)
}

/// `part` lies in `whole` at `i`.
pub open spec fn occurs_at(whole: Seq<char>, part: Seq<char>, i: int) -> bool {
    0 <= i && i + part.len() <= whole.len() && whole.subrange(i, i + part.len()) == part
}

/// `part` lies somewhere in `whole`.
pub open spec fn occurs(whole: Seq<char>, part: Seq<char>) -> bool {
    exists|i: int| occurs_at(whole, part, i)
}

/// Appends the digit of a number below 16.
pub fn append_hex_digit(out: &mut String, d: u8)
    requires
        d < 16,
    ensures
        final(out)@ == old(out)@.push(hex_digit(d as int)),
{
    proof {
        reveal_strlit("0");
        reveal_strlit("1");
        reveal_strlit("2");
        reveal_strlit("3");
        reveal_strlit("4");
        reveal_strlit("5");
        reveal_strlit("6");
        reveal_strlit("7");
        reveal_strlit("8");
        reveal_strlit("9");
        reveal_strlit("a");
        reveal_strlit("b");
        reveal_strlit("c");
        reveal_strlit("d");
        reveal_strlit("e");
        reveal_strlit("f");
    }
    let digit: &str = match d {
        0 => "0",
        1 => "1",
        2 => "2",
        3 => "3",
        4 => "4",
        5 => "5",
        6 => "6",
        7 => "7",
        8 => "8",
        9 => "9",
        10 => "a",
        11 => "b",
        12 => "c",
        13 => "d",
        14 => "e",
        _ => "f",
    };
    assert(digit@ =~= seq![hex_digit(d as int)]);
    out.append(digit);
    assert(out@ =~= old(out)@.push(hex_digit(d as int)));
}

/// Appends a byte as two hexadecimal digits.
pub fn append_hex2(out: &mut String, v: u8)
    ensures
        final(out)@ == old(out)@ + hex2(v),
{
    append_hex_digit(out, v / 16);
    append_hex_digit(out, v % 16);
    assert(out@ =~= old(out)@ + hex2(v));
}

/// Appends a 16-bit number as four hexadecimal digits.
pub fn append_hex4(out: &mut String, v: u16)
    ensures
        final(out)@ == old(out)@ + hex4(v),
{
    append_hex2(out, (v / 256) as u8);
    append_hex2(out, (v % 256) as u8);
    assert(out@ =~= old(out)@ + hex4(v));
}

/// The two parts, one after the other.
pub fn join(a: &str, b: &str) -> (r: String)
    ensures
        r@ == a@ + b@,
{
    let mut out: String = a.to_owned();
    out.append(b);
    out
}

/// The three parts, one after the other.
pub fn join3(a: &str, b: &str, c: &str) -> (r: String)
    ensures
        r@ == a@ + b@ + c@,
{
    let mut out: String = a.to_owned();
    out.append(b);
    out.append(c);
    out
}

/// The characters of a text.
fn characters(s: &str) -> (r: Vec<char>)
    ensures
        r@ == s@,
{
    let n: usize = s.unicode_len();
    let mut out: Vec<char> = Vec::new();
    while out.len() < n
        invariant
            n == s@.len(),
            out@.len() <= n,
            out@ == s@.take(out@.len() as int),
        decreases n - out@.len(),
    {
        let ghost k = out@.len() as int;
        out.push(s.get_char(out.len()));
        assert(out@ =~= s@.take(k + 1));
    }
    assert(out@ =~= s@);
    out
}

/// Tells whether `part` lies in `whole`.
pub fn contains(whole: &str, part: &str) -> (r: bool)
    ensures
        r == occurs(whole@, part@),
{
    let w: Vec<char> = characters(whole);
    let p: Vec<char> = characters(part);
    if p.len() > w.len() {
        return false;
    }
    let last: usize = w.len() - p.len();
    let mut i: usize = 0;
    while i <= last
        invariant
            w@ == whole@,
            p@ == part@,
            last == w@.len() - p@.len(),
            i <= last + 1,
            last + p@.len() <= usize::MAX,
            forall|k: int| 0 <= k < i ==> !occurs_at(whole@, part@, k),
        decreases last + 1 - i,
    {
        let mut j: usize = 0;
        while j < p.len() && w[i + j] == p[j]
            invariant
                j <= p@.len(),
                i + p@.len() <= w@.len(),
                w@.len() <= usize::MAX,
                forall|k: int| 0 <= k < j ==> w@[i + k] == p@[k],
            decreases p@.len() - j,
        {
            j = j + 1;
        }
        if j == p.len() {
            proof {
                assert(whole@.subrange(i as int, i + part@.len()) =~= part@);
                assert(occurs_at(whole@, part@, i as int));
            }
            return true;
        }
        proof {
            if occurs_at(whole@, part@, i as int) {
                assert(whole@.subrange(i as int, i + part@.len())[j as int] == w@[i + j]);
            }
        }
        if i == last {
            return false;
        }
        i = i + 1;
    }
    false
}

/// Tells whether two texts are the same.
pub fn same(a: &str, b: &str) -> (r: bool)
    ensures
        r == (a@ == b@),
{
    let x: Vec<char> = characters(a);
    let y: Vec<char> = characters(b);
    if x.len() != y.len() {
        return false;
    }
    let mut i: usize = 0;
    while i < x.len()
        invariant
            x@ == a@,
            y@ == b@,
            x@.len() == y@.len(),
            i <= x@.len(),
            forall|k: int| 0 <= k < i ==> x@[k] == y@[k],
        decreases x@.len() - i,
    {
        if x[i] != y[i] {
            assert(a@[i as int] != b@[i as int]);
            return false;
        }
        i = i + 1;
    }
    assert(a@ =~= b@);
    true
}

/// Tells whether a text has a NUL character, which no C string can hold.
pub fn has_nul(s: &str) -> (r: bool)
    ensures
        r == s@.contains('\0'),
{
    let c: Vec<char> = characters(s);
    let mut i: usize = 0;
    while i < c.len()
        invariant
            c@ == s@,
            i <= c@.len(),
            forall|k: int| 0 <= k < i ==> c@[k] != '\0',
        decreases c@.len() - i,
    {
        if c[i] == '\0' {
            assert(c@[i as int] == '\0');
            return true;
        }
        i = i + 1;
    }
    false
}

// ---------------------------------------------------------------------------
// Laws
// ---------------------------------------------------------------------------

/// A part occurs in a text exactly if the text is the part with something, or nothing, before
/// and behind it.
pub proof fn law_occurs(whole: Seq<char>, part: Seq<char>, before: Seq<char>, behind: Seq<char>)
    ensures
        whole == before + part + behind ==> occurs(whole, part),
        occurs(whole, part) ==> exists|x: Seq<char>, y: Seq<char>| whole == #[trigger] ((x + part) + y),
{
    if whole == before + part + behind {
        let i = before.len() as int;
        assert(whole.subrange(i, i + part.len()) =~= part);
        assert(occurs_at(whole, part, i));
    }
    if occurs(whole, part) {
        let i = choose|i: int| occurs_at(whole, part, i);
        let x = whole.take(i);
        let y = whole.skip(i + part.len());
        assert(whole =~= (x + part) + y);
    }
}

/// The digits of numbers are those of the hexadecimal system, in lower case.
pub proof fn law_hex_digits(d: int)
    requires
        0 <= d < 16,
    ensures
        hex_digit(d) == "0123456789abcdef"@[d],
{
    reveal_strlit("0123456789abcdef");
}

/// A byte is written as two digits and a 16-bit number as four, the highest first: with the
/// digits `d`, it is what they stand for.
pub proof fn law_hex_numbers(v: u8, w: u16, d: Seq<int>)
    requires
        d.len() == 4,
        forall|i: int| 0 <= i < 4 ==> 0 <= #[trigger] d[i] < 16,
    ensures
        hex2(v).len() == 2,
        hex4(w).len() == 4,
        v == 16 * d[0] + d[1] ==> hex2(v)[0] == hex_digit(d[0]) && hex2(v)[1] == hex_digit(d[1]),
        w == 4096 * d[0] + 256 * d[1] + 16 * d[2] + d[3] ==> {
            &&& hex4(w)[0] == hex_digit(d[0])
            &&& hex4(w)[1] == hex_digit(d[1])
            &&& hex4(w)[2] == hex_digit(d[2])
            &&& hex4(w)[3] == hex_digit(d[3])
        },
{
    let (a, b, c, e) = (d[0], d[1], d[2], d[3]);
    assert(0 <= a < 16 && 0 <= b < 16 && 0 <= c < 16 && 0 <= e < 16);
    if w == 4096 * a + 256 * b + 16 * c + e {
        assert(w / 256 == 16 * a + b);
        assert(w % 256 == 16 * c + e);
    }
}

} // verus!
