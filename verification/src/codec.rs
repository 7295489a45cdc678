use vstd::prelude::*;

verus! {

// ---------------------------------------------------------------- digits

/// The character for one decimal digit.
pub open spec fn digit_char(d: nat) -> char {
    if d == 0 { '0' } else if d == 1 { '1' } else if d == 2 { '2' } else if d == 3 { '3' }
    else if d == 4 { '4' } else if d == 5 { '5' } else if d == 6 { '6' } else if d == 7 { '7' }
    else if d == 8 { '8' } else { '9' }
}

/// The value of a decimal digit character; 10 for anything else.
pub open spec fn digit_val(c: char) -> nat {
    if c == '0' { 0 } else if c == '1' { 1 } else if c == '2' { 2 } else if c == '3' { 3 }
    else if c == '4' { 4 } else if c == '5' { 5 } else if c == '6' { 6 } else if c == '7' { 7 }
    else if c == '8' { 8 } else if c == '9' { 9 } else { 10 }
}

pub open spec fn is_digit(c: char) -> bool {
    digit_val(c) < 10
}

/// The value of a decimal digit character, 10 for anything else.
pub fn char_digit(c: char) -> (r: u8)
    ensures
        r as nat == digit_val(c),
{
    match c {
        '0' => 0, '1' => 1, '2' => 2, '3' => 3, '4' => 4,
        '5' => 5, '6' => 6, '7' => 7, '8' => 8, '9' => 9,
        _ => 10,
    }
}

// ------------------------------------------------------ decimal encoding

/// The decimal digits of `n`, most significant first, no leading zero.
pub open spec fn dec_of(n: nat) -> Seq<char>
    decreases n,
{
    if n < 10 {
        seq![digit_char(n)]
    } else {
        dec_of(n / 10).push(digit_char(n % 10))
    }
}

/// The value of a digit sequence, most significant first.
pub open spec fn dec_val(s: Seq<char>) -> nat
    decreases s.len(),
{
    if s.len() == 0 {
        0
    } else {
        dec_val(s.drop_last()) * 10 + digit_val(s.last())
    }
}

pub open spec fn all_digits(s: Seq<char>) -> bool {
    forall|i: int| 0 <= i < s.len() ==> is_digit(#[trigger] s[i])
}

/// A decimal encoding is non-empty, all digits, and has no leading
/// zero; reading it back gives the encoded value.
pub proof fn lemma_dec_roundtrip(n: nat)
    ensures
        dec_of(n).len() >= 1,
        all_digits(dec_of(n)),
        dec_of(n).len() > 1 ==> dec_of(n)[0] != '0',
        n >= 10 ==> dec_of(n).len() >= 2,
        dec_val(dec_of(n)) == n,
    decreases n,
{
    if n < 10 {
        assert(dec_of(n) =~= seq![digit_char(n)]);
        assert(dec_of(n).drop_last() =~= Seq::<char>::empty());
        assert(dec_val(Seq::<char>::empty()) == 0);
        assert(dec_val(dec_of(n)) == digit_val(digit_char(n)));
        assert(digit_val(digit_char(n)) == n);
    } else {
        lemma_dec_roundtrip(n / 10);
        vstd::arithmetic::div_mod::lemma_fundamental_div_mod(n as int, 10);
        let s = dec_of(n / 10);
        assert(dec_of(n) =~= s.push(digit_char(n % 10)));
        assert(dec_of(n).drop_last() =~= s);
        assert(s[0] != '0') by {
            if n / 10 < 10 {
                assert(s =~= seq![digit_char(n / 10)]);
                assert(n / 10 >= 1);
                assert(digit_char(n / 10) != '0');
            } else {
                assert(s.len() >= 2);
            }
        }
        assert(dec_val(dec_of(n)) == dec_val(s) * 10 + digit_val(digit_char(n % 10)));
        assert(digit_val(digit_char(n % 10)) == n % 10);
    }
}

/// A non-empty all-digit sequence with no leading zero is the decimal
/// encoding of its value.
pub proof fn lemma_dec_canonical(s: Seq<char>)
    requires
        s.len() >= 1,
        all_digits(s),
        s.len() > 1 ==> s[0] != '0',
    ensures
        dec_of(dec_val(s)) == s,
    decreases s.len(),
{
    if s.len() == 1 {
        assert(dec_val(s.drop_last()) == 0);
        assert(dec_val(s) == digit_val(s[0]));
        assert(dec_of(dec_val(s)) =~= s);
    } else {
        let t = s.drop_last();
        assert(all_digits(t));
        lemma_dec_canonical(t);
        lemma_dec_roundtrip(dec_val(t));
        let v = dec_val(s);
        assert(v == dec_val(t) * 10 + digit_val(s.last()));
        assert(dec_val(t) >= 1) by {
            if dec_val(t) == 0 {
                lemma_dec_val_zero(t);
            }
        }
        assert(v >= 10);
        vstd::arithmetic::div_mod::lemma_fundamental_div_mod_converse(
            v as int, 10, dec_val(t) as int, digit_val(s.last()) as int);
        assert(v / 10 == dec_val(t));
        assert(v % 10 == digit_val(s.last()));
        assert(dec_of(v) =~= dec_of(dec_val(t)).push(digit_char(digit_val(s.last()))));
        assert(digit_char(digit_val(s.last())) == s.last());
        assert(dec_of(v) =~= s);
    }
}

/// An all-digit sequence of value zero with no leading zero is `"0"`.
proof fn lemma_dec_val_zero(s: Seq<char>)
    requires
        s.len() >= 1,
        all_digits(s),
        s.len() > 1 ==> s[0] != '0',
        dec_val(s) == 0,
    ensures
        s.len() == 1,
    decreases s.len(),
{
    if s.len() > 1 {
        let t = s.drop_last();
        assert(dec_val(t) * 10 + digit_val(s.last()) == 0);
        assert(dec_val(t) == 0);
        assert(all_digits(t));
        lemma_dec_val_zero(t);
        assert(digit_val(s[0]) == 0);
        assert(s[0] == '0');
    }
}

/// A single decimal digit, as a one-character string.
pub fn digit_str(d: u8) -> (r: &'static str)
    requires
        d < 10,
    ensures
        r@ =~= seq![digit_char(d as nat)],
{
    proof {
        reveal_strlit("0"); reveal_strlit("1"); reveal_strlit("2"); reveal_strlit("3");
        reveal_strlit("4"); reveal_strlit("5"); reveal_strlit("6"); reveal_strlit("7");
        reveal_strlit("8"); reveal_strlit("9");
    }
    match d {
        0 => "0", 1 => "1", 2 => "2", 3 => "3", 4 => "4",
        5 => "5", 6 => "6", 7 => "7", 8 => "8", _ => "9",
    }
}

/// The decimal rendering of `n`, as [`dec_of`] states it.
pub fn u128_to_dec(n: u128) -> (r: String)
    ensures
        r@ == dec_of(n as nat),
    decreases n,
{
    if n < 10 {
        digit_str(n as u8).to_owned()
    } else {
        let prefix = u128_to_dec(n / 10);
        let r = prefix.concat(digit_str((n % 10) as u8));
        proof {
            assert(r@ =~= dec_of(n as nat));
        }
        r
    }
}

// -------------------------------------------------------- digit scanning

/// Index of the first non-digit at or after `from`.
pub open spec fn digit_run_end(s: Seq<char>, from: int) -> int
    decreases s.len() - from,
{
    if from < 0 || from >= s.len() || !is_digit(s[from]) {
        from
    } else {
        digit_run_end(s, from + 1)
    }
}

pub proof fn lemma_digit_run_end(s: Seq<char>, from: int)
    requires
        0 <= from <= s.len(),
    ensures
        from <= digit_run_end(s, from) <= s.len(),
        forall|i: int| from <= i < digit_run_end(s, from) ==> is_digit(#[trigger] s[i]),
        digit_run_end(s, from) < s.len() ==> !is_digit(s[digit_run_end(s, from)]),
    decreases s.len() - from,
{
    if from < s.len() && is_digit(s[from]) {
        lemma_digit_run_end(s, from + 1);
    }
}

/// A run of digits ended by the text's end or a non-digit is the
/// maximal run.
pub proof fn lemma_digit_run_exact(s: Seq<char>, from: int, end: int)
    requires
        0 <= from <= end <= s.len(),
        forall|i: int| from <= i < end ==> is_digit(#[trigger] s[i]),
        end == s.len() || !is_digit(s[end]),
    ensures
        digit_run_end(s, from) == end,
    decreases end - from,
{
    if from < end {
        lemma_digit_run_exact(s, from + 1, end);
    }
}

/// Reads the maximal digit run starting at `from`: its value and the
/// index after it.  Fails when the run is empty or its value exceeds
/// `max`.
pub fn scan_dec(s: &str, from: usize, max: u64) -> (r: Option<(u64, usize)>)
    requires
        from <= s@.len(),
        max <= u32::MAX,
    ensures
        ({
            let end = digit_run_end(s@, from as int);
            match r {
                Some(p) => end == p.1 && from < p.1 && p.1 <= s@.len() && p.0 <= max
                    && p.0 as nat == dec_val(s@.subrange(from as int, end)),
                None => end == from as int || dec_val(s@.subrange(from as int, end)) > max,
            }
        }),
{
    proof {
        lemma_digit_run_end(s@, from as int);
    }
    let n = s.unicode_len();
    let mut i: usize = from;
    let mut val: u64 = 0;
    let mut over: bool = false;
    while i < n && char_digit(s.get_char(i)) < 10
        invariant
            from <= i <= n,
            n == s@.len(),
            max <= u32::MAX,
            digit_run_end(s@, from as int) == digit_run_end(s@, i as int),
            forall|j: int| from <= j < i ==> is_digit(#[trigger] s@[j]),
            !over ==> val as nat == dec_val(s@.subrange(from as int, i as int)) && val <= max,
            over ==> dec_val(s@.subrange(from as int, i as int)) > max,
        decreases n - i,
    {
        let d = char_digit(s.get_char(i));
        proof {
            assert(s@.subrange(from as int, i as int + 1).drop_last()
                =~= s@.subrange(from as int, i as int));
        }
        if !over {
            let grown: u64 = val * 10 + d as u64;
            if grown > max {
                over = true;
            } else {
                val = grown;
            }
        }
        i = i + 1;
    }
    proof {
        assert(digit_run_end(s@, i as int) == i as int);
        lemma_digit_run_end(s@, from as int);
    }
    if over || i == from {
        None
    } else {
        Some((val, i))
    }
}

// ----------------------------------------------------------- hexadecimal

/// The character for one hexadecimal nibble, lower case.
pub open spec fn nibble_char(d: nat) -> char {
    if d < 10 { digit_char(d) }
    else if d == 10 { 'a' } else if d == 11 { 'b' } else if d == 12 { 'c' }
    else if d == 13 { 'd' } else if d == 14 { 'e' } else { 'f' }
}

/// The value of a lower-case hexadecimal character; 16 for anything
/// else.
pub open spec fn nibble_val(c: char) -> nat {
    if digit_val(c) < 10 { digit_val(c) }
    else if c == 'a' { 10 } else if c == 'b' { 11 } else if c == 'c' { 12 }
    else if c == 'd' { 13 } else if c == 'e' { 14 } else if c == 'f' { 15 } else { 16 }
}

pub open spec fn is_hex_char(c: char) -> bool {
    nibble_val(c) < 16
}

/// The two hexadecimal characters of one byte.
pub open spec fn hex_of_byte(b: u8) -> Seq<char> {
    seq![nibble_char(b as nat / 16), nibble_char(b as nat % 16)]
}

/// The hexadecimal rendering of a byte string.
pub open spec fn hex_of(bytes: Seq<u8>) -> Seq<char>
    decreases bytes.len(),
{
    if bytes.len() == 0 {
        Seq::empty()
    } else {
        hex_of(bytes.drop_last()) + hex_of_byte(bytes.last())
    }
}

pub proof fn lemma_hex_of_shape(bytes: Seq<u8>)
    ensures
        hex_of(bytes).len() == 2 * bytes.len(),
        forall|i: int| 0 <= i < hex_of(bytes).len() ==> is_hex_char(#[trigger] hex_of(bytes)[i]),
    decreases bytes.len(),
{
    if bytes.len() > 0 {
        lemma_hex_of_shape(bytes.drop_last());
    }
}

/// Two byte strings with one hexadecimal rendering are equal.
pub proof fn lemma_hex_injective(a: Seq<u8>, b: Seq<u8>)
    requires
        hex_of(a) == hex_of(b),
    ensures
        a == b,
    decreases a.len(),
{
    lemma_hex_of_shape(a);
    lemma_hex_of_shape(b);
    if a.len() > 0 {
        let ha = hex_of(a.drop_last());
        let hb = hex_of(b.drop_last());
        lemma_hex_of_shape(a.drop_last());
        lemma_hex_of_shape(b.drop_last());
        assert(hex_of(a)[2 * a.len() - 2] == hex_of_byte(a.last())[0]);
        assert(hex_of(a)[2 * a.len() - 1] == hex_of_byte(a.last())[1]);
        assert(hex_of(b)[2 * b.len() - 2] == hex_of_byte(b.last())[0]);
        assert(hex_of(b)[2 * b.len() - 1] == hex_of_byte(b.last())[1]);
        assert(nibble_char(a.last() as nat / 16) == nibble_char(b.last() as nat / 16));
        assert(nibble_char(a.last() as nat % 16) == nibble_char(b.last() as nat % 16));
        assert(a.last() as nat / 16 == b.last() as nat / 16);
        assert(a.last() as nat % 16 == b.last() as nat % 16);
        assert(a.last() == b.last()) by {
            vstd::arithmetic::div_mod::lemma_fundamental_div_mod(a.last() as int, 16);
            vstd::arithmetic::div_mod::lemma_fundamental_div_mod(b.last() as int, 16);
        }
        assert(ha.len() == hb.len());
        assert forall|i: int| 0 <= i < ha.len() implies ha[i] == hb[i] by {
            assert(hex_of(a)[i] == ha[i]);
            assert(hex_of(b)[i] == hb[i]);
        }
        assert(ha =~= hb);
        lemma_hex_injective(a.drop_last(), b.drop_last());
        assert(a.len() == b.len());
        assert forall|i: int| 0 <= i < a.len() implies a[i] == b[i] by {
            if i < a.len() - 1 {
                assert(a.drop_last()[i] == a[i]);
                assert(b.drop_last()[i] == b[i]);
                assert(a.drop_last() == b.drop_last());
            }
        }
        assert(a =~= b);
    } else {
        assert(hex_of(a).len() == 0);
        assert(b.len() == 0);
        assert(a =~= b);
    }
}

/// One nibble, as a one-character string.
pub fn nibble_str(d: u8) -> (r: &'static str)
    requires
        d < 16,
    ensures
        r@ =~= seq![nibble_char(d as nat)],
{
    proof {
        reveal_strlit("a"); reveal_strlit("b"); reveal_strlit("c");
        reveal_strlit("d"); reveal_strlit("e"); reveal_strlit("f");
    }
    if d < 10 {
        digit_str(d)
    } else {
        match d {
            10 => "a", 11 => "b", 12 => "c", 13 => "d", 14 => "e", _ => "f",
        }
    }
}

/// The hexadecimal rendering of `bytes`, as [`hex_of`] states it.
pub fn to_hex(bytes: &Vec<u8>) -> (r: String)
    ensures
        r@ == hex_of(bytes@),
{
    let mut r = String::new();
    let mut i: usize = 0;
    while i < bytes.len()
        invariant
            i <= bytes@.len(),
            r@ == hex_of(bytes@.subrange(0, i as int)),
        decreases bytes@.len() - i,
    {
        let b = bytes[i];
        let r2 = r.concat(nibble_str(b / 16));
        r = r2.concat(nibble_str(b % 16));
        proof {
            let pre = bytes@.subrange(0, i as int);
            let cur = bytes@.subrange(0, i as int + 1);
            assert(cur.drop_last() =~= pre);
            assert(cur.last() == bytes@[i as int]);
            assert(r@ =~= hex_of(cur));
        }
        i = i + 1;
    }
    proof {
        assert(bytes@.subrange(0, bytes@.len() as int) =~= bytes@);
    }
    r
}

/// The value of a lower-case hexadecimal character, 16 for anything
/// else.
pub fn char_nibble(c: char) -> (r: u8)
    ensures
        r as nat == nibble_val(c),
{
    let d = char_digit(c);
    if d < 10 {
        d
    } else {
        match c {
            'a' => 10, 'b' => 11, 'c' => 12, 'd' => 13, 'e' => 14, 'f' => 15,
            _ => 16,
        }
    }
}

/// Reads the characters of `s` between `from` and `to` as the
/// hexadecimal rendering of a byte string.
pub fn from_hex(s: &str, from: usize, to: usize) -> (r: Option<Vec<u8>>)
    requires
        from <= to <= s@.len(),
    ensures
        match r {
            Some(b) => hex_of(b@) == s@.subrange(from as int, to as int),
            None => !(exists|b: Seq<u8>| hex_of(b) == s@.subrange(from as int, to as int)),
        },
{
    let whole = Ghost(s@.subrange(from as int, to as int));
    if (to - from) % 2 != 0 {
        proof {
            if exists|b: Seq<u8>| hex_of(b) == whole@ {
                let b = choose|b: Seq<u8>| hex_of(b) == whole@;
                lemma_hex_of_shape(b);
            }
        }
        return None;
    }
    let mut out: Vec<u8> = Vec::new();
    let mut i: usize = from;
    while i < to
        invariant
            from <= i <= to <= s@.len(),
            (to as int - i as int) % 2 == 0,
            whole@ == s@.subrange(from as int, to as int),
            hex_of(out@) == s@.subrange(from as int, i as int),
        decreases to - i,
    {
        proof {
            assert(to as int - i as int >= 2);
        }
        let hi = char_nibble(s.get_char(i));
        let lo = char_nibble(s.get_char(i + 1));
        if hi >= 16 || lo >= 16 {
            proof {
                if exists|b: Seq<u8>| hex_of(b) == whole@ {
                    let b = choose|b: Seq<u8>| hex_of(b) == whole@;
                    lemma_hex_of_shape(b);
                    let j = i as int - from as int;
                    assert(whole@.len() == to as int - from as int);
                    assert(0 <= j && j + 1 < whole@.len());
                    assert(whole@[j] == s@[i as int]);
                    assert(whole@[j + 1] == s@[i as int + 1]);
                    assert(is_hex_char(whole@[j]));
                    assert(is_hex_char(whole@[j + 1]));
                }
            }
            return None;
        }
        let b: u8 = hi * 16 + lo;
        let ghost prev = out@;
        out.push(b);
        proof {
            assert(out@.drop_last() =~= prev);
            assert(out@.last() == b);
            assert(b as nat / 16 == hi as nat && b as nat % 16 == lo as nat) by {
                vstd::arithmetic::div_mod::lemma_fundamental_div_mod_converse(
                    b as int, 16, hi as int, lo as int);
            }
            assert(nibble_char(nibble_val(s@[i as int])) == s@[i as int]);
            assert(nibble_char(nibble_val(s@[i as int + 1])) == s@[i as int + 1]);
            assert(hex_of(out@) == hex_of(prev) + hex_of_byte(b));
            assert(hex_of_byte(b) =~= seq![s@[i as int], s@[i as int + 1]]);
            assert(s@.subrange(from as int, i as int + 2) =~= s@.subrange(from as int, i as int)
                + seq![s@[i as int], s@[i as int + 1]]);
            assert(hex_of(out@) =~= s@.subrange(from as int, i as int + 2));
        }
        i = i + 2;
    }
    Some(out)
}

} // verus!
