use vstd::prelude::*;

verus! {

/// The sixteen lowercase hexadecimal digits, in order.
pub open spec fn hex_alphabet() -> Seq<char> {
    seq!['0', '1', '2', '3', '4', '5', '6', '7', '8', '9', 'a', 'b', 'c', 'd', 'e', 'f']
}

/// Lowercase hexadecimal rendering of `n` without leading zeros ("0" for zero),
/// as `format!("{:x}", n)` writes it.
pub open spec fn hex_digits(n: nat) -> Seq<char>
    decreases n,
{
    if n < 16 {
        seq![hex_alphabet()[n as int]]
    } else {
        hex_digits(n / 16).push(hex_alphabet()[(n % 16) as int])
    }
}

/// A lowercase hexadecimal digit.
pub open spec fn is_lower_hex_char(c: char) -> bool {
    ('0' <= c && c <= '9') || ('a' <= c && c <= 'f')
}

/// Text that `hex_lower` can produce: one to sixteen lowercase hexadecimal
/// digits.
pub open spec fn is_hex_u64_text(s: Seq<char>) -> bool {
    &&& 1 <= s.len() <= 16
    &&& forall|i: int| 0 <= i < s.len() ==> is_lower_hex_char(#[trigger] s[i])
}

pub open spec fn pow16(k: nat) -> nat
    decreases k,
{
    if k == 0 {
        1
    } else {
        16 * pow16((k - 1) as nat)
    }
}

proof fn lemma_hex_digits_shape(n: nat, k: nat)
    requires
        k >= 1,
        n < pow16(k),
    ensures
        1 <= hex_digits(n).len() <= k,
        forall|i: int| 0 <= i < hex_digits(n).len() ==> is_lower_hex_char(#[trigger] hex_digits(n)[i]),
    decreases n,
{
    assert(forall|d: int| 0 <= d < 16 ==> is_lower_hex_char(#[trigger] hex_alphabet()[d]));
    if n >= 16 {
        let p = pow16((k - 1) as nat);
        assert(n < 16 * p);
        assert(k >= 2) by {
            if k == 1 {
                assert(pow16(0) == 1);
            }
        }
        assert(n / 16 < p) by (nonlinear_arith)
            requires
                n < 16 * p,
        ;
        lemma_hex_digits_shape(n / 16, (k - 1) as nat);
        let prev = hex_digits(n / 16);
        assert(hex_digits(n) == prev.push(hex_alphabet()[(n % 16) as int]));
        assert forall|i: int| 0 <= i < hex_digits(n).len() implies is_lower_hex_char(
            #[trigger] hex_digits(n)[i],
        ) by {
            if i < prev.len() {
                assert(hex_digits(n)[i] == prev[i]);
            }
        }
    }
}

/// Every 64-bit number renders as one to sixteen lowercase hexadecimal digits.
pub proof fn lemma_hex_u64_text(n: u64)
    ensures
        is_hex_u64_text(hex_digits(n as nat)),
{
    reveal_with_fuel(pow16, 17);
    assert(pow16(16) == 0x1_0000_0000_0000_0000nat);
    lemma_hex_digits_shape(n as nat, 16);
}

/// Whether a text has the shape of a rendered 64-bit number in lowercase
/// hexadecimal.
pub fn is_hex_u64(s: &str) -> (r: bool)
    ensures
        r == is_hex_u64_text(s@),
{
    let n = s.unicode_len();
    if n < 1 || n > 16 {
        return false;
    }
    let mut i: usize = 0;
    while i < n
        invariant
            n == s@.len(),
            i <= n,
            forall|k: int| 0 <= k < i ==> is_lower_hex_char(#[trigger] s@[k]),
        decreases n - i,
    {
        let c = s.get_char(i);
        if !(('0' <= c && c <= '9') || ('a' <= c && c <= 'f')) {
            return false;
        }
        i = i + 1;
    }
    true
}

fn append_hex(out: &mut String, n: u64)
    ensures
        final(out)@ == old(out)@ + hex_digits(n as nat),
    decreases n,
{
    let digits = "0123456789abcdef";
    proof {
        reveal_strlit("0123456789abcdef");
        assert(digits@ =~= hex_alphabet());
    }
    let d = (n % 16) as usize;
    if n >= 16 {
        append_hex(out, n / 16);
    }
    let one = digits.substring_char(d, d + 1);
    proof {
        assert(one@ =~= seq![hex_alphabet()[d as int]]);
    }
    out.append(one);
    proof {
        if n >= 16 {
            assert(final(out)@ =~= old(out)@ + hex_digits(n as nat));
        } else {
            assert(final(out)@ =~= old(out)@ + hex_digits(n as nat));
        }
    }
}

/// Renders `n` in lowercase hexadecimal without leading zeros.
pub fn hex_lower(n: u64) -> (r: String)
    ensures
        r@ == hex_digits(n as nat),
{
    let mut out = String::new();
    append_hex(&mut out, n);
    assert(out@ =~= hex_digits(n as nat));
    out
}

/// Decimal rendering of `n` without leading zeros ("0" for zero), as
/// `format!("{}", n)` writes it.
pub open spec fn decimal_digits(n: nat) -> Seq<char>
    decreases n,
{
    if n < 10 {
        seq![hex_alphabet()[n as int]]
    } else {
        decimal_digits(n / 10).push(hex_alphabet()[(n % 10) as int])
    }
}

fn append_decimal(out: &mut String, n: u64)
    ensures
        final(out)@ == old(out)@ + decimal_digits(n as nat),
    decreases n,
{
    let digits = "0123456789";
    proof {
        reveal_strlit("0123456789");
        assert(digits@ =~= hex_alphabet().subrange(0, 10));
    }
    let d = (n % 10) as usize;
    if n >= 10 {
        append_decimal(out, n / 10);
    }
    let one = digits.substring_char(d, d + 1);
    proof {
        assert(one@ =~= seq![hex_alphabet()[d as int]]);
    }
    out.append(one);
    assert(final(out)@ =~= old(out)@ + decimal_digits(n as nat));
}

/// Renders `n` in decimal without leading zeros.
pub fn decimal(n: u64) -> (r: String)
    ensures
        r@ == decimal_digits(n as nat),
{
    let mut out = String::new();
    append_decimal(&mut out, n);
    assert(out@ =~= decimal_digits(n as nat));
    out
}

} // verus!
