use crate::scanner::ascii;
use vstd::prelude::*;

verus! {

/// The decimal digits of a number, most significant first, without leading
/// zeros.
pub open spec fn digits(n: nat) -> Seq<u8>
    decreases n,
{
    if n < 10 {
        seq![('0' as u8 + n) as u8]
    } else {
        digits(n / 10).push(('0' as u8 + n % 10) as u8)
    }
}

/// `count` copies of `fill`.
pub open spec fn filler(count: int, fill: u8) -> Seq<u8> {
    Seq::new(
        if count > 0 {
            count as nat
        } else {
            0
        },
        |i: int| fill,
    )
}

/// `text`, with as many `fill` bytes before it as bring it to `width`.
pub open spec fn right_aligned(text: Seq<u8>, width: nat, fill: u8) -> Seq<u8> {
    filler(width - text.len(), fill) + text
}

/// `text`, with as many spaces behind it as bring it to `width`.
pub open spec fn left_aligned(text: Seq<u8>, width: nat) -> Seq<u8> {
    text + filler(width - text.len(), ' ' as u8)
}

/// A number has at least one digit, and all its digits are digits.
pub proof fn lemma_digits(n: nat)
    ensures
        digits(n).len() >= 1,
        forall|i: int| 0 <= i < digits(n).len() ==> '0' as u8 <= #[trigger] digits(n)[i] <= '9' as u8,
    decreases n,
{
    if n >= 10 {
        lemma_digits(n / 10);
    }
}

/// Numbers with the same digits are the same number.
pub proof fn lemma_digits_injective(a: nat, b: nat)
    requires
        digits(a) == digits(b),
    ensures
        a == b,
    decreases a,
{
    lemma_digits(a / 10);
    lemma_digits(b / 10);
    if a < 10 && b < 10 {
        assert(digits(a)[0] == ('0' as u8 + a) as u8);
        assert(digits(b)[0] == ('0' as u8 + b) as u8);
    } else if a >= 10 && b >= 10 {
        assert(digits(a).last() == ('0' as u8 + a % 10) as u8);
        assert(digits(b).last() == ('0' as u8 + b % 10) as u8);
        assert(a % 10 == b % 10);
        assert(digits(a).drop_last() =~= digits(a / 10));
        assert(digits(b).drop_last() =~= digits(b / 10));
        lemma_digits_injective(a / 10, b / 10);
        assert(a == 10 * (a / 10) + a % 10);
        assert(b == 10 * (b / 10) + b % 10);
    } else if a < 10 {
        assert(digits(a).len() == 1);
        assert(digits(b).len() == digits(b / 10).len() + 1);
    } else {
        assert(digits(b).len() == 1);
        assert(digits(a).len() == digits(a / 10).len() + 1);
    }
}

/// A number below a thousand has at most three digits.
pub proof fn lemma_digits_short(n: nat)
    requires
        n < 1000,
    ensures
        digits(n).len() <= 3,
{
    reveal_with_fuel(digits, 4);
}

/// Numbers are the same if their digits, right-aligned in the same width
/// by a fill that is no digit, read the same.
pub proof fn lemma_right_aligned_injective(a: nat, b: nat, width: nat, fill: u8)
    requires
        right_aligned(digits(a), width, fill) == right_aligned(digits(b), width, fill),
        !('0' as u8 <= fill <= '9' as u8),
        digits(a).len() <= width,
        digits(b).len() <= width,
    ensures
        a == b,
{
    let da = digits(a);
    let db = digits(b);
    let ra = right_aligned(da, width, fill);
    let rb = right_aligned(db, width, fill);
    lemma_digits(a);
    lemma_digits(b);
    assert(ra.len() == width);
    assert(rb.len() == width);
    if da.len() < db.len() {
        let i = width - db.len();
        assert(ra[i] == fill);
        assert(rb[i] == db[0]);
    } else if db.len() < da.len() {
        let i = width - da.len();
        assert(rb[i] == fill);
        assert(ra[i] == da[0]);
    } else {
        assert(da =~= ra.skip(width - da.len()));
        assert(db =~= rb.skip(width - db.len()));
        lemma_digits_injective(a, b);
    }
}

/// Appends the bytes of `src` to `dst`.
pub fn append(dst: &mut Vec<u8>, src: &[u8])
    ensures
        final(dst)@ == old(dst)@ + src@,
{
    let mut i: usize = 0;
    while i < src.len()
        invariant
            i <= src@.len(),
            dst@ == old(dst)@ + src@.take(i as int),
        decreases src@.len() - i,
    {
        dst.push(src[i]);
        assert(old(dst)@ + src@.take(i + 1) =~= (old(dst)@ + src@.take(i as int)).push(
            src@[i as int],
        ));
        i += 1;
    }
    assert(src@.take(src@.len() as int) =~= src@);
}

/// Appends an ASCII text to `dst`.
pub fn append_str(dst: &mut Vec<u8>, text: &str)
    requires
        text.is_ascii(),
    ensures
        final(dst)@ == old(dst)@ + ascii(text@),
{
    proof {
        vstd::string::is_ascii_spec_bytes(text);
    }
    append(dst, text.as_bytes());
}

/// Appends `count` copies of `fill` to `dst`.
pub fn append_fill(dst: &mut Vec<u8>, count: usize, fill: u8)
    ensures
        final(dst)@ == old(dst)@ + filler(count as int, fill),
{
    let mut i: usize = 0;
    while i < count
        invariant
            i <= count,
            dst@ == old(dst)@ + filler(i as int, fill),
        decreases count - i,
    {
        dst.push(fill);
        assert(old(dst)@ + filler(i + 1, fill) =~= (old(dst)@ + filler(i as int, fill)).push(fill));
        i += 1;
    }
}

/// The decimal digits of `n`.
pub fn decimal(n: usize) -> (text: Vec<u8>)
    ensures
        text@ == digits(n as nat),
    decreases n,
{
    if n < 10 {
        let mut text: Vec<u8> = Vec::new();
        text.push('0' as u8 + n as u8);
        assert(text@ =~= digits(n as nat));
        text
    } else {
        let mut text = decimal(n / 10);
        text.push('0' as u8 + (n % 10) as u8);
        text
    }
}

/// Appends `n` in decimal, brought to `width` by `fill` bytes before it.
pub fn append_number(dst: &mut Vec<u8>, n: usize, width: usize, fill: u8)
    ensures
        final(dst)@ == old(dst)@ + right_aligned(digits(n as nat), width as nat, fill),
{
    let text = decimal(n);
    if text.len() < width {
        append_fill(dst, width - text.len(), fill);
    } else {
        assert(filler(width - text@.len(), fill) =~= Seq::<u8>::empty());
    }
    append(dst, text.as_slice());
    assert(dst@ =~= old(dst)@ + right_aligned(digits(n as nat), width as nat, fill));
}

/// Appends an ASCII text, brought to `width` by spaces behind it.
pub fn append_name(dst: &mut Vec<u8>, text: &str, width: usize)
    requires
        text.is_ascii(),
    ensures
        final(dst)@ == old(dst)@ + left_aligned(ascii(text@), width as nat),
{
    proof {
        vstd::string::is_ascii_spec_bytes(text);
    }
    let bytes = text.as_bytes();
    append(dst, bytes);
    if bytes.len() < width {
        append_fill(dst, width - bytes.len(), ' ' as u8);
    } else {
        assert(filler(width - bytes@.len(), ' ' as u8) =~= Seq::<u8>::empty());
    }
    assert(dst@ =~= old(dst)@ + left_aligned(ascii(text@), width as nat));
}

} // verus!
