use vstd::prelude::*;

verus! {

/// The lowercase hexadecimal digit for a value below sixteen.
pub open spec fn hex_char(d: int) -> char {
    if d < 10 {
        (48 + d) as char
    } else {
        (87 + d) as char
    }
}

/// Lowercase hexadecimal text of a byte sequence: two digits per byte,
/// the high nibble first.
pub open spec fn hex_lower(bytes: Seq<u8>) -> Seq<char>
    decreases bytes.len(),
{
    if bytes.len() == 0 {
        Seq::empty()
    } else {
        let b = bytes.last();
        hex_lower(bytes.drop_last()) + seq![hex_char(b as int / 16), hex_char(b as int % 16)]
    }
}

/// Appends the hexadecimal digit of `d` to `s`.
fn push_hex_digit(s: &mut String, d: u8)
    requires
        d < 16,
    ensures
        final(s)@ == old(s)@.push(hex_char(d as int)),
{
    let digits = "0123456789abcdef";
    proof {
        reveal_strlit("0123456789abcdef");
    }
    assert(digits.is_ascii());
    let one = digits.substring_ascii(d as usize, d as usize + 1);
    assert(one@ =~= seq![hex_char(d as int)]);
    s.append(one);
}

/// Lowercase hexadecimal text of `data`.
pub fn to_hex(data: &[u8]) -> (res: String)
    ensures
        res@ == hex_lower(data@),
{
    let mut res = String::new();
    let mut i: usize = 0;
    while i < data.len()
        invariant
            i <= data.len(),
            res@ == hex_lower(data@.take(i as int)),
        decreases data.len() - i,
    {
        let b = data[i];
        push_hex_digit(&mut res, b / 16);
        push_hex_digit(&mut res, b % 16);
        assert(data@.take(i as int + 1).drop_last() =~= data@.take(i as int));
        i = i + 1;
    }
    assert(data@.take(data.len() as int) =~= data@);
    res
}

} // verus!

verus! {

/// Hexadecimal text has two digits per byte.
pub proof fn lemma_hex_lower_len(bytes: Seq<u8>)
    ensures
        hex_lower(bytes).len() == 2 * bytes.len(),
    decreases bytes.len(),
{
    if bytes.len() > 0 {
        lemma_hex_lower_len(bytes.drop_last());
    }
}

} // verus!

verus! {

/// The `n` low-order bytes of `x`, least significant first, in two's
/// complement for negative `x`.
pub open spec fn le_bytes(x: int, n: nat) -> Seq<u8>
    decreases n,
{
    if n == 0 {
        Seq::empty()
    } else {
        seq![(x % 256) as u8] + le_bytes(x / 256, (n - 1) as nat)
    }
}

/// bincode's fixed-width encoding of a length: a little-endian `u64`.
pub open spec fn bincode_len(n: nat) -> Seq<u8> {
    le_bytes(n as int, 8)
}

/// bincode's encoding of a byte sequence: its length, then the bytes.
pub open spec fn bincode_bytes(b: Seq<u8>) -> Seq<u8> {
    bincode_len(b.len()) + b
}

/// bincode's encoding of text: the length of its UTF-8 form, then that form.
pub open spec fn bincode_str(s: Seq<char>) -> Seq<u8> {
    bincode_bytes(vstd::utf8::encode_utf8(s))
}

/// The concatenation of `parts`, in order.
pub open spec fn concat_all(parts: Seq<Seq<u8>>) -> Seq<u8>
    decreases parts.len(),
{
    if parts.len() == 0 {
        Seq::empty()
    } else {
        concat_all(parts.drop_last()) + parts.last()
    }
}

/// bincode's encoding of a list whose elements encode to `parts`:
/// the element count, then the elements.
pub open spec fn bincode_list(parts: Seq<Seq<u8>>) -> Seq<u8> {
    bincode_len(parts.len()) + concat_all(parts)
}

} // verus!

verus! {

/// The value of a byte sequence read as a big-endian unsigned number.
pub open spec fn be_value(bytes: Seq<u8>) -> nat
    decreases bytes.len(),
{
    if bytes.len() == 0 {
        0
    } else {
        be_value(bytes.drop_last()) * 256 + bytes.last() as nat
    }
}

} // verus!

verus! {

/// The Base58 alphabet (Bitcoin's).
pub open spec fn base58_alphabet() -> Seq<char> {
    "123456789ABCDEFGHJKLMNPQRSTUVWXYZabcdefghijkmnopqrstuvwxyz"@
}

/// The number of zero bytes at the start of `bytes`.
pub open spec fn leading_zeros(bytes: Seq<u8>) -> nat
    decreases bytes.len(),
{
    if bytes.len() > 0 && bytes[0] == 0 {
        1 + leading_zeros(bytes.drop_first())
    } else {
        0
    }
}

/// The base-58 digits of `n`, most significant first, without leading
/// zeros (none for zero).
pub open spec fn base58_digits(n: nat) -> Seq<nat>
    decreases n,
{
    if n == 0 {
        Seq::empty()
    } else {
        base58_digits(n / 58).push(n % 58)
    }
}

/// Base58 text of a byte sequence: a `1` for each leading zero byte, then
/// the base-58 digits of the bytes read as a big-endian number.
pub open spec fn base58(bytes: Seq<u8>) -> Seq<char> {
    Seq::new(leading_zeros(bytes), |i: int| '1') + base58_digits(be_value(bytes)).map_values(
        |d: nat| base58_alphabet()[d as int],
    )
}

/// `58^n`.
pub open spec fn p58(n: nat) -> nat
    decreases n,
{
    if n == 0 {
        1
    } else {
        58 * p58((n - 1) as nat)
    }
}

/// The value of little-endian base-58 digits.
pub open spec fn le58_value(d: Seq<u8>) -> nat
    decreases d.len(),
{
    if d.len() == 0 {
        0
    } else {
        le58_value(d.drop_last()) + p58((d.len() - 1) as nat) * (d.last() as nat)
    }
}

/// Whether every element of `d` is a base-58 digit.
pub open spec fn all_digits58(d: Seq<u8>) -> bool {
    forall|i: int| 0 <= i < d.len() ==> #[trigger] d[i] < 58
}

/// The value of digits, split at the lowest digit.
proof fn lemma_le58_first(d: Seq<u8>)
    requires
        d.len() > 0,
    ensures
        le58_value(d) == d[0] + 58 * le58_value(d.drop_first()),
    decreases d.len(),
{
    if d.len() == 1 {
        assert(d.drop_last() =~= Seq::<u8>::empty());
        assert(d.drop_first() =~= Seq::<u8>::empty());
        assert(p58(0) == 1);
        assert(le58_value(d) == le58_value(d.drop_last()) + p58(0) * (d.last() as nat));
    } else {
        let init = d.drop_last();
        lemma_le58_first(init);
        assert(init.drop_first() =~= d.drop_first().drop_last());
        assert(d.drop_first().last() == d.last());
        assert(init[0] == d[0]);
        assert(le58_value(d) == le58_value(init) + p58((d.len() - 1) as nat) * (d.last() as nat));
        assert(le58_value(d.drop_first()) == le58_value(d.drop_first().drop_last()) + p58(
            (d.len() - 2) as nat,
        ) * (d.last() as nat));
        let a = le58_value(init.drop_first());
        let p = p58((d.len() - 2) as nat);
        assert(p58((d.len() - 1) as nat) == 58 * p);
        assert(58 * (a + p * d.last()) == 58 * a + (58 * p) * d.last()) by (nonlinear_arith);
    }
}

/// A nonempty digit sequence with a nonzero top digit has a positive value.
proof fn lemma_le58_positive(d: Seq<u8>)
    requires
        d.len() > 0,
        d.last() != 0,
    ensures
        le58_value(d) > 0,
{
    let p = p58((d.len() - 1) as nat);
    lemma_p58_positive((d.len() - 1) as nat);
    assert(p * d.last() > 0) by (nonlinear_arith)
        requires
            p > 0,
            d.last() > 0,
    ;
}

/// `58^n` is positive.
proof fn lemma_p58_positive(n: nat)
    ensures
        p58(n) > 0,
    decreases n,
{
    if n > 0 {
        lemma_p58_positive((n - 1) as nat);
    }
}

/// Normalized little-endian digits are the reverse of `base58_digits` of
/// their value.
proof fn lemma_digits_of_value(d: Seq<u8>)
    requires
        all_digits58(d),
        d.len() == 0 || d.last() != 0,
    ensures
        base58_digits(le58_value(d)) == d.reverse().map_values(|x: u8| x as nat),
    decreases d.len(),
{
    if d.len() == 0 {
        assert(d.reverse().map_values(|x: u8| x as nat) =~= Seq::<nat>::empty());
    } else {
        let rest = d.drop_first();
        lemma_le58_first(d);
        lemma_le58_positive(d);
        if rest.len() > 0 {
            assert(rest.last() == d.last());
        }
        assert(all_digits58(rest)) by {
            assert forall|i: int| 0 <= i < rest.len() implies #[trigger] rest[i] < 58 by {
                assert(rest[i] == d[i + 1]);
            }
        }
        lemma_digits_of_value(rest);
        let n = le58_value(d);
        let r = le58_value(rest);
        assert(d[0] < 58);
        assert(n == d[0] + 58 * r);
        assert(n % 58 == d[0] as nat && n / 58 == r) by (nonlinear_arith)
            requires
                n == d[0] + 58 * r,
                d[0] < 58,
        ;
        assert(d.reverse().map_values(|x: u8| x as nat) =~= rest.reverse().map_values(|x: u8| x as nat).push(
            d[0] as nat,
        ));
    }
}

/// Base58 text of `data`.
pub fn base58_encode(data: &[u8]) -> (res: String)
    ensures
        res@ == base58(data@),
{
    let mut digits: Vec<u8> = Vec::new();
    let mut i: usize = 0;
    while i < data.len()
        invariant
            i <= data@.len(),
            all_digits58(digits@),
            le58_value(digits@) == be_value(data@.take(i as int)),
        decreases data.len() - i,
    {
        let ghost old_digits = digits@;
        let b = data[i];
        let mut carry: u32 = b as u32;
        let mut j: usize = 0;
        assert(digits@.take(0) =~= Seq::<u8>::empty());
        assert(old_digits.take(0) =~= Seq::<u8>::empty());
        assert(p58(0) == 1);
        while j < digits.len()
            invariant
                j <= digits@.len(),
                digits@.len() == old_digits.len(),
                all_digits58(digits@),
                all_digits58(old_digits),
                carry <= 255,
                forall|t: int| j <= t < digits@.len() ==> digits@[t] == old_digits[t],
                le58_value(digits@.take(j as int)) + p58(j as nat) * carry == 256 * le58_value(
                    old_digits.take(j as int),
                ) + b,
            decreases digits.len() - j,
        {
            let ghost before = digits@;
            let c = carry + (digits[j] as u32) * 256;
            let ghost dj = old_digits[j as int];
            assert(digits@[j as int] == dj);
            digits[j] = (c % 58) as u8;
            carry = c / 58;
            proof {
                assert(digits@.take(j as int + 1).drop_last() =~= before.take(j as int));
                assert(digits@.take(j as int) =~= before.take(j as int));
                assert(old_digits.take(j as int + 1).drop_last() =~= old_digits.take(j as int));
                let pj = p58(j as nat);
                let lv = le58_value(before.take(j as int));
                let ov = le58_value(old_digits.take(j as int));
                let oc = c - dj * 256;
                assert(p58(j as nat + 1) == 58 * pj);
                assert(lv + pj * (c % 58) + (58 * pj) * (c / 58) == 256 * (ov + pj * dj) + b)
                    by (nonlinear_arith)
                    requires
                        lv + pj * oc == 256 * ov + b,
                        c == oc + dj * 256,
                ;
            }
            j = j + 1;
        }
        assert(digits@.take(digits@.len() as int) =~= digits@);
        assert(old_digits.take(old_digits.len() as int) =~= old_digits);
        while carry > 0
            invariant
                all_digits58(digits@),
                carry <= 255,
                le58_value(digits@) + p58(digits@.len()) * carry == 256 * le58_value(old_digits) + b,
            decreases carry,
        {
            let ghost before = digits@;
            digits.push((carry % 58) as u8);
            proof {
                assert(digits@.drop_last() =~= before);
                let p = p58(before.len());
                assert(p58(before.len() + 1) == 58 * p);
                let c = carry as int;
                assert(p * (c % 58) + (58 * p) * (c / 58) == p * c) by (nonlinear_arith);
            }
            carry = carry / 58;
        }
        proof {
            assert(data@.take(i as int + 1).drop_last() =~= data@.take(i as int));
        }
        i = i + 1;
    }
    assert(data@.take(data@.len() as int) =~= data@);
    // Drop zero digits at the top.
    while digits.len() > 0 && digits[digits.len() - 1] == 0
        invariant
            all_digits58(digits@),
            le58_value(digits@) == be_value(data@),
        decreases digits.len(),
    {
        let ghost before = digits@;
        assert(before.last() == 0);
        digits.pop();
        assert(before.drop_last() =~= digits@);
        assert(le58_value(before) == le58_value(before.drop_last()) + p58((before.len() - 1) as nat) * (
        before.last() as nat));
        assert(p58((before.len() - 1) as nat) * (before.last() as nat) == 0);
    }
    proof {
        lemma_digits_of_value(digits@);
    }
    let mut res = String::new();
    let zeros = count_leading_zeros(data);
    let mut k: usize = 0;
    while k < zeros
        invariant
            k <= zeros,
            res@ == Seq::new(k as nat, |i: int| '1'),
        decreases zeros - k,
    {
        res.append("1");
        proof {
            reveal_strlit("1");
        }
        k = k + 1;
        assert(res@ =~= Seq::new(k as nat, |i: int| '1'));
    }
    let ghost prefix = res@;
    let ghost ds = digits@.reverse().map_values(|x: u8| x as nat);
    let mut m: usize = digits.len();
    while m > 0
        invariant
            m <= digits@.len(),
            ds == digits@.reverse().map_values(|x: u8| x as nat),
            all_digits58(digits@),
            res@ == prefix + ds.take((digits@.len() - m) as int).map_values(|d: nat| base58_alphabet()[d as int]),
        decreases m,
    {
        m = m - 1;
        push_base58_digit(&mut res, digits[m]);
        assert(ds[(digits@.len() - m - 1) as int] == digits@[m as int] as nat);
        assert(ds.take((digits@.len() - m) as int).map_values(|d: nat| base58_alphabet()[d as int])
            =~= ds.take((digits@.len() - m - 1) as int).map_values(|d: nat| base58_alphabet()[d as int]).push(
            base58_alphabet()[digits@[m as int] as int],
        ));
    }
    assert(ds.take(digits@.len() as int) =~= ds);
    res
}

/// Appends the Base58 character of digit `d` to `s`.
fn push_base58_digit(s: &mut String, d: u8)
    requires
        d < 58,
    ensures
        final(s)@ == old(s)@.push(base58_alphabet()[d as int]),
{
    let alphabet = "123456789ABCDEFGHJKLMNPQRSTUVWXYZabcdefghijkmnopqrstuvwxyz";
    proof {
        reveal_strlit("123456789ABCDEFGHJKLMNPQRSTUVWXYZabcdefghijkmnopqrstuvwxyz");
    }
    assert(alphabet.is_ascii());
    let one = alphabet.substring_ascii(d as usize, d as usize + 1);
    assert(one@ =~= seq![base58_alphabet()[d as int]]);
    s.append(one);
}

/// The number of zero bytes at the start of `data`.
fn count_leading_zeros(data: &[u8]) -> (res: usize)
    ensures
        res == leading_zeros(data@),
{
    let mut k: usize = 0;
    assert(data@.skip(0) =~= data@);
    while k < data.len() && data[k] == 0
        invariant
            k <= data@.len(),
            leading_zeros(data@) == k + leading_zeros(data@.skip(k as int)),
        decreases data.len() - k,
    {
        assert(data@.skip(k as int).drop_first() =~= data@.skip(k as int + 1));
        k = k + 1;
    }
    assert(data@.skip(0) =~= data@);
    proof {
        res_leading(data@, k);
    }
    k
}

/// Closes the count: nothing more to skip means no more zeros.
proof fn res_leading(b: Seq<u8>, k: usize)
    requires
        k <= b.len(),
        k == b.len() || b[k as int] != 0,
    ensures
        leading_zeros(b.skip(k as int)) == 0,
{
    if k < b.len() {
        assert(b.skip(k as int)[0] == b[k as int]);
    }
}

} // verus!

verus! {

/// The Base58 character of digit `d`, by ranges of the alphabet.
pub open spec fn b58_char(d: int) -> char {
    if d < 9 {
        (49 + d) as char
    } else if d < 17 {
        (65 + d - 9) as char
    } else if d < 22 {
        (74 + d - 17) as char
    } else if d < 33 {
        (80 + d - 22) as char
    } else if d < 44 {
        (97 + d - 33) as char
    } else {
        (109 + d - 44) as char
    }
}

/// The digit of a Base58 character, if it is one.
pub open spec fn b58_digit(c: char) -> Option<nat> {
    let v = c as int;
    if 49 <= v <= 57 {
        Some((v - 49) as nat)
    } else if 65 <= v <= 72 {
        Some((v - 65 + 9) as nat)
    } else if 74 <= v <= 78 {
        Some((v - 74 + 17) as nat)
    } else if 80 <= v <= 90 {
        Some((v - 80 + 22) as nat)
    } else if 97 <= v <= 107 {
        Some((v - 97 + 33) as nat)
    } else if 109 <= v <= 122 {
        Some((v - 109 + 44) as nat)
    } else {
        None
    }
}

/// The alphabet, character by character, and its inverse.
pub proof fn lemma_alphabet(d: int)
    requires
        0 <= d < 58,
    ensures
        base58_alphabet()[d] == b58_char(d),
        b58_digit(b58_char(d)) == Some(d as nat),
{
    reveal_strlit("123456789ABCDEFGHJKLMNPQRSTUVWXYZabcdefghijkmnopqrstuvwxyz");
}

} // verus!

verus! {

/// The number of `1` characters at the start of `s`.
pub open spec fn leading_ones(s: Seq<char>) -> nat
    decreases s.len(),
{
    if s.len() > 0 && s[0] == '1' {
        1 + leading_ones(s.drop_first())
    } else {
        0
    }
}

/// Whether every character of `s` is in the Base58 alphabet.
pub open spec fn is_base58(s: Seq<char>) -> bool {
    forall|i: int| 0 <= i < s.len() ==> #[trigger] b58_digit(s[i]) is Some
}

/// The number that Base58 text spells, most significant digit first.
pub open spec fn base58_value(s: Seq<char>) -> nat
    decreases s.len(),
{
    if s.len() == 0 {
        0
    } else {
        base58_value(s.drop_last()) * 58 + b58_digit(s.last()).unwrap()
    }
}

/// The big-endian bytes of `n`, without leading zeros (none for zero).
pub open spec fn be_bytes(n: nat) -> Seq<u8>
    decreases n,
{
    if n == 0 {
        Seq::empty()
    } else {
        be_bytes(n / 256).push((n % 256) as u8)
    }
}

/// The bytes Base58 text stands for: a zero byte for each leading `1`, then
/// the big-endian bytes of the number it spells; `None` when a character is
/// not in the alphabet.
pub open spec fn base58_decoded(s: Seq<char>) -> Option<Seq<u8>> {
    if is_base58(s) {
        Some(Seq::new(leading_ones(s), |i: int| 0u8) + be_bytes(base58_value(s)))
    } else {
        None
    }
}

/// `256^n`.
pub open spec fn p256(n: nat) -> nat
    decreases n,
{
    if n == 0 {
        1
    } else {
        256 * p256((n - 1) as nat)
    }
}

/// The value of little-endian base-256 digits.
pub open spec fn le256_value(d: Seq<u8>) -> nat
    decreases d.len(),
{
    if d.len() == 0 {
        0
    } else {
        le256_value(d.drop_last()) + p256((d.len() - 1) as nat) * (d.last() as nat)
    }
}

proof fn lemma_le256_first(d: Seq<u8>)
    requires
        d.len() > 0,
    ensures
        le256_value(d) == d[0] + 256 * le256_value(d.drop_first()),
    decreases d.len(),
{
    if d.len() == 1 {
        assert(d.drop_last() =~= Seq::<u8>::empty());
        assert(d.drop_first() =~= Seq::<u8>::empty());
        assert(p256(0) == 1);
        assert(le256_value(d) == le256_value(d.drop_last()) + p256(0) * (d.last() as nat));
    } else {
        let init = d.drop_last();
        lemma_le256_first(init);
        assert(init.drop_first() =~= d.drop_first().drop_last());
        assert(d.drop_first().last() == d.last());
        assert(init[0] == d[0]);
        assert(le256_value(d) == le256_value(init) + p256((d.len() - 1) as nat) * (d.last() as nat));
        assert(le256_value(d.drop_first()) == le256_value(d.drop_first().drop_last()) + p256(
            (d.len() - 2) as nat,
        ) * (d.last() as nat));
        let a = le256_value(init.drop_first());
        let p = p256((d.len() - 2) as nat);
        assert(p256((d.len() - 1) as nat) == 256 * p);
        assert(256 * (a + p * d.last()) == 256 * a + (256 * p) * d.last()) by (nonlinear_arith);
    }
}

proof fn lemma_p256_positive(n: nat)
    ensures
        p256(n) > 0,
    decreases n,
{
    if n > 0 {
        lemma_p256_positive((n - 1) as nat);
    }
}

/// Normalized little-endian bytes are the reverse of `be_bytes` of their
/// value.
proof fn lemma_bytes_of_value(d: Seq<u8>)
    requires
        d.len() == 0 || d.last() != 0,
    ensures
        be_bytes(le256_value(d)) == d.reverse(),
    decreases d.len(),
{
    if d.len() == 0 {
        assert(d.reverse() =~= Seq::<u8>::empty());
    } else {
        let rest = d.drop_first();
        lemma_le256_first(d);
        let p = p256((d.len() - 1) as nat);
        lemma_p256_positive((d.len() - 1) as nat);
        assert(p * (d.last() as nat) > 0) by (nonlinear_arith)
            requires
                p > 0,
                d.last() > 0,
        ;
        if rest.len() > 0 {
            assert(rest.last() == d.last());
        }
        lemma_bytes_of_value(rest);
        let n = le256_value(d);
        let r = le256_value(rest);
        assert(n == d[0] + 256 * r);
        assert(n % 256 == d[0] as nat && n / 256 == r) by (nonlinear_arith)
            requires
                n == d[0] + 256 * r,
                d[0] < 256,
        ;
        assert(d.reverse() =~= rest.reverse().push(d[0]));
    }
}

/// The digit of a Base58 character, if it is one.
fn digit_of(c: char) -> (res: Option<u8>)
    ensures
        res is Some <==> b58_digit(c) is Some,
        res is Some ==> res.unwrap() as nat == b58_digit(c).unwrap() && res.unwrap() < 58,
{
    let v = c as u32;
    if 49 <= v && v <= 57 {
        Some((v - 49) as u8)
    } else if 65 <= v && v <= 72 {
        Some((v - 65 + 9) as u8)
    } else if 74 <= v && v <= 78 {
        Some((v - 74 + 17) as u8)
    } else if 80 <= v && v <= 90 {
        Some((v - 80 + 22) as u8)
    } else if 97 <= v && v <= 107 {
        Some((v - 97 + 33) as u8)
    } else if 109 <= v && v <= 122 {
        Some((v - 109 + 44) as u8)
    } else {
        None
    }
}

/// The bytes that Base58 text `s` stands for; `None` when a character of
/// `s` is not in the alphabet.
pub fn base58_decode(s: &str) -> (res: Option<Vec<u8>>)
    ensures
        res is Some <==> base58_decoded(s@) is Some,
        res is Some ==> res.unwrap()@ == base58_decoded(s@).unwrap(),
{
    let n = s.unicode_len();
    let mut bytes: Vec<u8> = Vec::new();
    let mut i: usize = 0;
    while i < n
        invariant
            n == s@.len(),
            i <= n,
            is_base58(s@.take(i as int)),
            le256_value(bytes@) == base58_value(s@.take(i as int)),
        decreases n - i,
    {
        let c = s.get_char(i);
        let d = match digit_of(c) {
            Some(d) => d,
            None => {
                assert(!is_base58(s@)) by {
                    assert(b58_digit(s@[i as int]) is None);
                }
                return None;
            },
        };
        let ghost old_bytes = bytes@;
        let mut carry: u32 = d as u32;
        let mut j: usize = 0;
        assert(bytes@.take(0) =~= Seq::<u8>::empty());
        assert(old_bytes.take(0) =~= Seq::<u8>::empty());
        assert(p256(0) == 1);
        while j < bytes.len()
            invariant
                j <= bytes@.len(),
                bytes@.len() == old_bytes.len(),
                carry <= 57,
                forall|t: int| j <= t < bytes@.len() ==> bytes@[t] == old_bytes[t],
                le256_value(bytes@.take(j as int)) + p256(j as nat) * carry == 58 * le256_value(
                    old_bytes.take(j as int),
                ) + d,
            decreases bytes.len() - j,
        {
            let ghost before = bytes@;
            let ghost bj = old_bytes[j as int];
            assert(bytes@[j as int] == bj);
            let c2 = (bytes[j] as u32) * 58 + carry;
            bytes[j] = (c2 % 256) as u8;
            carry = c2 / 256;
            proof {
                assert(bytes@.take(j as int + 1).drop_last() =~= before.take(j as int));
                assert(old_bytes.take(j as int + 1).drop_last() =~= old_bytes.take(j as int));
                let pj = p256(j as nat);
                let lv = le256_value(before.take(j as int));
                let ov = le256_value(old_bytes.take(j as int));
                let oc = c2 - bj * 58;
                assert(p256(j as nat + 1) == 256 * pj);
                assert(lv + pj * (c2 % 256) + (256 * pj) * (c2 / 256) == 58 * (ov + pj * bj) + d)
                    by (nonlinear_arith)
                    requires
                        lv + pj * oc == 58 * ov + d,
                        c2 == oc + bj * 58,
                ;
            }
            j = j + 1;
        }
        assert(bytes@.take(bytes@.len() as int) =~= bytes@);
        assert(old_bytes.take(old_bytes.len() as int) =~= old_bytes);
        while carry > 0
            invariant
                carry <= 57,
                le256_value(bytes@) + p256(bytes@.len()) * carry == 58 * le256_value(old_bytes) + d,
            decreases carry,
        {
            let ghost before = bytes@;
            bytes.push((carry % 256) as u8);
            proof {
                assert(bytes@.drop_last() =~= before);
                let p = p256(before.len());
                assert(p256(before.len() + 1) == 256 * p);
                let cc = carry as int;
                assert(p * (cc % 256) + (256 * p) * (cc / 256) == p * cc) by (nonlinear_arith);
            }
            carry = carry / 256;
        }
        proof {
            assert(s@.take(i as int + 1).drop_last() =~= s@.take(i as int));
            assert(s@.take(i as int + 1).last() == s@[i as int]);
            assert forall|k: int| 0 <= k < i + 1 implies #[trigger] b58_digit(s@.take(i as int + 1)[k]) is Some by {
                if k < i {
                    assert(s@.take(i as int + 1)[k] == s@.take(i as int)[k]);
                }
            }
        }
        i = i + 1;
    }
    assert(s@.take(n as int) =~= s@);
    while bytes.len() > 0 && bytes[bytes.len() - 1] == 0
        invariant
            le256_value(bytes@) == base58_value(s@),
        decreases bytes.len(),
    {
        let ghost before = bytes@;
        assert(before.last() == 0);
        bytes.pop();
        assert(before.drop_last() =~= bytes@);
        assert(le256_value(before) == le256_value(before.drop_last()) + p256((before.len() - 1) as nat) * (
        before.last() as nat));
        assert(p256((before.len() - 1) as nat) * (before.last() as nat) == 0);
    }
    proof {
        lemma_bytes_of_value(bytes@);
    }
    let ones = count_leading_ones(s, n);
    let mut res: Vec<u8> = Vec::new();
    let mut k: usize = 0;
    while k < ones
        invariant
            k <= ones,
            res@ == Seq::new(k as nat, |i: int| 0u8),
        decreases ones - k,
    {
        res.push(0u8);
        k = k + 1;
        assert(res@ =~= Seq::new(k as nat, |i: int| 0u8));
    }
    let ghost prefix = res@;
    let mut m: usize = bytes.len();
    while m > 0
        invariant
            m <= bytes@.len(),
            res@ == prefix + bytes@.reverse().take((bytes@.len() - m) as int),
        decreases m,
    {
        m = m - 1;
        res.push(bytes[m]);
        assert(bytes@.reverse()[(bytes@.len() - m - 1) as int] == bytes@[m as int]);
        assert(bytes@.reverse().take((bytes@.len() - m) as int) =~= bytes@.reverse().take(
            (bytes@.len() - m - 1) as int,
        ).push(bytes@[m as int]));
    }
    assert(bytes@.reverse().take(bytes@.len() as int) =~= bytes@.reverse());
    Some(res)
}

/// The number of `1` characters at the start of `s`, of length `n`.
fn count_leading_ones(s: &str, n: usize) -> (res: usize)
    requires
        n == s@.len(),
    ensures
        res == leading_ones(s@),
{
    let mut k: usize = 0;
    assert(s@.skip(0) =~= s@);
    while k < n && s.get_char(k) == '1'
        invariant
            n == s@.len(),
            k <= n,
            leading_ones(s@) == k + leading_ones(s@.skip(k as int)),
        decreases n - k,
    {
        assert(s@.skip(k as int).drop_first() =~= s@.skip(k as int + 1));
        k = k + 1;
    }
    proof {
        if k < n {
            assert(s@.skip(k as int)[0] == s@[k as int]);
        }
    }
    k
}

} // verus!

verus! {

/// The first `leading_zeros` bytes are zero, and the next one is not.
proof fn lemma_leading_zeros(b: Seq<u8>)
    ensures
        leading_zeros(b) <= b.len(),
        forall|i: int| 0 <= i < leading_zeros(b) ==> b[i] == 0,
        leading_zeros(b) < b.len() ==> b[leading_zeros(b) as int] != 0,
    decreases b.len(),
{
    if b.len() > 0 && b[0] == 0 {
        let rest = b.drop_first();
        lemma_leading_zeros(rest);
        assert forall|i: int| 0 <= i < leading_zeros(b) implies b[i] == 0 by {
            if i > 0 {
                assert(b[i] == rest[i - 1]);
            }
        }
    }
}

/// A zero byte in front does not change the value.
proof fn lemma_be_value_zero_front(t: Seq<u8>)
    ensures
        be_value(seq![0u8] + t) == be_value(t),
    decreases t.len(),
{
    if t.len() > 0 {
        lemma_be_value_zero_front(t.drop_last());
        assert((seq![0u8] + t).drop_last() =~= seq![0u8] + t.drop_last());
        assert((seq![0u8] + t).last() == t.last());
    } else {
        assert((seq![0u8] + t).drop_last() =~= Seq::<u8>::empty());
        assert((seq![0u8] + t).last() == 0);
        assert(be_value(Seq::<u8>::empty()) == 0);
    }
}

/// Leading zero bytes do not change the value.
proof fn lemma_be_value_zeros(z: nat, t: Seq<u8>)
    ensures
        be_value(Seq::new(z, |i: int| 0u8) + t) == be_value(t),
    decreases z,
{
    if z > 0 {
        let rest = Seq::new((z - 1) as nat, |i: int| 0u8) + t;
        lemma_be_value_zeros((z - 1) as nat, t);
        lemma_be_value_zero_front(rest);
        assert(Seq::new(z, |i: int| 0u8) + t =~= seq![0u8] + rest);
    }
}

/// Bytes that do not start with zero are the `be_bytes` of their value.
proof fn lemma_be_bytes_of_value(t: Seq<u8>)
    requires
        t.len() == 0 || t[0] != 0,
    ensures
        be_bytes(be_value(t)) == t,
        t.len() > 0 ==> be_value(t) > 0,
    decreases t.len(),
{
    if t.len() == 0 {
        assert(be_bytes(0) =~= t);
    } else {
        let init = t.drop_last();
        if init.len() > 0 {
            assert(init[0] == t[0]);
        }
        lemma_be_bytes_of_value(init);
        let v = be_value(t);
        let iv = be_value(init);
        assert(v == iv * 256 + t.last());
        if init.len() == 0 {
            assert(iv == 0);
            assert(t.last() == t[0]);
        }
        assert(v > 0);
        assert(v / 256 == iv && v % 256 == t.last() as nat) by (nonlinear_arith)
            requires
                v == iv * 256 + t.last(),
                t.last() < 256,
        ;
        assert(be_bytes(v) =~= init.push(t.last()));
        assert(init.push(t.last()) =~= t);
    }
}

/// The Base58 characters of a digit sequence.
pub open spec fn digit_chars(ds: Seq<nat>) -> Seq<char> {
    ds.map_values(|d: nat| base58_alphabet()[d as int])
}

/// The digits of a number are base-58 digits, the first of them nonzero,
/// and their characters spell the number back.
proof fn lemma_digits_spell(n: nat)
    ensures
        forall|i: int| 0 <= i < base58_digits(n).len() ==> #[trigger] base58_digits(n)[i] < 58,
        n > 0 ==> base58_digits(n)[0] != 0,
        is_base58(digit_chars(base58_digits(n))),
        base58_value(digit_chars(base58_digits(n))) == n,
    decreases n,
{
    if n > 0 {
        let q = n / 58;
        let r = n % 58;
        lemma_digits_spell(q);
        let ds = base58_digits(n);
        let dq = base58_digits(q);
        assert(ds == dq.push(r));
        if q == 0 {
            assert(dq.len() == 0);
            assert(r != 0);
        } else {
            assert(ds[0] == dq[0]);
        }
        let cs = digit_chars(ds);
        assert(cs.drop_last() =~= digit_chars(dq));
        lemma_alphabet(r as int);
        assert(cs.last() == b58_char(r as int));
        assert forall|i: int| 0 <= i < cs.len() implies #[trigger] b58_digit(cs[i]) is Some by {
            if i < cs.len() - 1 {
                assert(cs[i] == digit_chars(dq)[i]);
            }
        }
        assert(n == q * 58 + r);
    }
}

/// Leading `1`s spell zero and do not change the value of what follows.
proof fn lemma_ones_value(z: nat, t: Seq<char>)
    ensures
        base58_value(Seq::new(z, |i: int| '1') + t) == base58_value(t) + base58_value(Seq::new(z, |i: int| '1')) * p58(t.len()),
        base58_value(Seq::new(z, |i: int| '1')) == 0,
    decreases t.len(), z,
{
    let ones = Seq::new(z, |i: int| '1');
    if z > 0 {
        lemma_ones_value((z - 1) as nat, Seq::empty());
        assert(ones.drop_last() =~= Seq::new((z - 1) as nat, |i: int| '1'));
        assert(b58_digit('1') == Some(0nat));
        assert(Seq::new((z - 1) as nat, |i: int| '1') + Seq::<char>::empty() =~= Seq::new((z - 1) as nat, |i: int| '1'));
    }
    if t.len() > 0 {
        lemma_ones_value(z, t.drop_last());
        assert((ones + t).drop_last() =~= ones + t.drop_last());
        assert(p58(t.len()) == 58 * p58((t.len() - 1) as nat));
    } else {
        assert(ones + t =~= ones);
    }
}

/// Base58 decoding gives back the bytes that were encoded.
pub proof fn lemma_base58_round_trip(b: Seq<u8>)
    ensures
        base58_decoded(base58(b)) == Some(b),
{
    let z = leading_zeros(b);
    let n = be_value(b);
    let ds = base58_digits(n);
    let ones = Seq::new(z, |i: int| '1');
    let s = base58(b);
    assert(s == ones + digit_chars(ds));
    lemma_leading_zeros(b);
    let t = b.skip(z as int);
    assert(b =~= Seq::new(z, |i: int| 0u8) + t);
    lemma_be_value_zeros(z, t);
    if t.len() > 0 {
        assert(t[0] == b[z as int]);
    }
    lemma_be_bytes_of_value(t);
    lemma_digits_spell(n);
    // Every character is in the alphabet.
    assert(b58_digit('1') == Some(0nat));
    assert forall|i: int| 0 <= i < s.len() implies #[trigger] b58_digit(s[i]) is Some by {
        if i >= z {
            assert(s[i] == digit_chars(ds)[i - z]);
        }
    }
    // The leading `1`s are exactly the encoded zero bytes.
    if ds.len() > 0 {
        assert(n > 0);
        lemma_alphabet(ds[0] as int);
        assert(digit_chars(ds)[0] == b58_char(ds[0] as int));
        assert(b58_digit(digit_chars(ds)[0]) == Some(ds[0]));
    }
    lemma_leading_ones_prefix(z, digit_chars(ds));
    lemma_ones_value(z, digit_chars(ds));
    assert(base58_value(s) == n);
    assert(be_bytes(base58_value(s)) == t);
}

/// `1`s in front of text that does not start with `1` are all its leading
/// `1`s.
proof fn lemma_leading_ones_prefix(z: nat, t: Seq<char>)
    requires
        t.len() == 0 || b58_digit(t[0]) != Some(0nat),
    ensures
        leading_ones(Seq::new(z, |i: int| '1') + t) == z,
    decreases z,
{
    let s = Seq::new(z, |i: int| '1') + t;
    if z > 0 {
        lemma_leading_ones_prefix((z - 1) as nat, t);
        assert(s.drop_first() =~= Seq::new((z - 1) as nat, |i: int| '1') + t);
    } else {
        assert(s =~= t);
        if t.len() > 0 {
            assert(t[0] != '1');
        }
    }
}

} // verus!
