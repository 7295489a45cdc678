use vstd::prelude::*;

use crate::codec::{
    all_digits, dec_of, dec_val, digit_run_end, from_hex, hex_of, is_digit, is_hex_char,
    lemma_dec_canonical, lemma_dec_roundtrip, lemma_digit_run_end, lemma_hex_injective,
    lemma_hex_of_shape, scan_dec, to_hex, u128_to_dec,
};
use crate::types::{InterpreterOrigin, NetworkId, OriginV, UserOrigin};

verus! {

/// Textual encoding of an interpreter origin: the network id in
/// decimal, the salt in lower-case hexadecimal, then the user id
/// verbatim, comma-separated.  The first two fields never contain the
/// separator, so the encoding is self-describing.
pub open spec fn origin_encoding(o: OriginV) -> Seq<char> {
    dec_of(o.network_id as nat) + seq![','] + hex_of(o.salt) + seq![','] + o.user_id
}

/// The origin a text encodes, if it encodes one.
pub open spec fn origin_of_encoding(s: Seq<char>) -> Option<OriginV> {
    if exists|v: OriginV| origin_encoding(v) == s {
        Some(choose|v: OriginV| origin_encoding(v) == s)
    } else {
        None
    }
}

proof fn lemma_origin_encoding_shape(v: OriginV)
    ensures
        ({
            let e = origin_encoding(v);
            let a = dec_of(v.network_id as nat);
            let b = hex_of(v.salt);
            &&& e.len() == a.len() + 1 + b.len() + 1 + v.user_id.len()
            &&& e.subrange(0, a.len() as int) == a
            &&& e[a.len() as int] == ','
            &&& e.subrange(a.len() + 1 as int, a.len() + 1 + b.len() as int) == b
            &&& e[a.len() + 1 + b.len() as int] == ','
            &&& e.subrange(a.len() + b.len() + 2 as int, e.len() as int) == v.user_id
        }),
{
    let e = origin_encoding(v);
    let a = dec_of(v.network_id as nat);
    let b = hex_of(v.salt);
    assert(e.subrange(0, a.len() as int) =~= a);
    assert(e.subrange(a.len() + 1 as int, a.len() + 1 + b.len() as int) =~= b);
    assert(e.subrange(a.len() + b.len() + 2 as int, e.len() as int) =~= v.user_id);
}

/// The first comma of an encoding ends the decimal field, the next
/// one the hexadecimal field: two origins with one encoding are
/// equal.
proof fn lemma_origin_encoding_injective(v1: OriginV, v2: OriginV)
    requires
        origin_encoding(v1) == origin_encoding(v2),
    ensures
        v1 == v2,
{
    let e = origin_encoding(v1);
    let a1 = dec_of(v1.network_id as nat);
    let a2 = dec_of(v2.network_id as nat);
    let b1 = hex_of(v1.salt);
    let b2 = hex_of(v2.salt);
    lemma_origin_encoding_shape(v1);
    lemma_origin_encoding_shape(v2);
    lemma_dec_roundtrip(v1.network_id as nat);
    lemma_dec_roundtrip(v2.network_id as nat);
    lemma_hex_of_shape(v1.salt);
    lemma_hex_of_shape(v2.salt);
    assert(a1.len() == a2.len()) by {
        if a1.len() < a2.len() {
            assert(e[a1.len() as int] == ',');
            assert(e.subrange(0, a2.len() as int)[a1.len() as int] == e[a1.len() as int]);
            assert(is_digit(a2[a1.len() as int]));
            assert(!is_digit(','));
        } else if a2.len() < a1.len() {
            assert(e[a2.len() as int] == ',');
            assert(e.subrange(0, a1.len() as int)[a2.len() as int] == e[a2.len() as int]);
            assert(is_digit(a1[a2.len() as int]));
            assert(!is_digit(','));
        }
    }
    assert(a1 == a2);
    assert(v1.network_id == v2.network_id) by {
        assert(dec_val(a1) == dec_val(a2));
    }
    assert(b1.len() == b2.len()) by {
        if b1.len() < b2.len() {
            assert(e[a1.len() + 1 + b1.len() as int] == ',');
            assert(e.subrange(a2.len() + 1 as int, a2.len() + 1 + b2.len() as int)[b1.len() as int]
                == e[a1.len() + 1 + b1.len() as int]);
            assert(is_hex_char(b2[b1.len() as int]));
            assert(!is_hex_char(','));
        } else if b2.len() < b1.len() {
            assert(e[a2.len() + 1 + b2.len() as int] == ',');
            assert(e.subrange(a1.len() + 1 as int, a1.len() + 1 + b1.len() as int)[b2.len() as int]
                == e[a2.len() + 1 + b2.len() as int]);
            assert(is_hex_char(b1[b2.len() as int]));
            assert(!is_hex_char(','));
        }
    }
    assert(b1 == b2);
    lemma_hex_injective(v1.salt, v2.salt);
    assert(v1.user_id == v2.user_id) by {
        assert(v1.user_id == e.subrange(a1.len() + b1.len() + 2 as int, e.len() as int));
        assert(v2.user_id == e.subrange(a2.len() + b2.len() + 2 as int, e.len() as int));
    }
    assert(v1 =~= v2);
}

/// Reading back an encoding gives the encoded origin.
pub proof fn lemma_origin_roundtrip(v: OriginV)
    ensures
        origin_of_encoding(origin_encoding(v)) == Some(v),
{
    assert(origin_encoding(v) == origin_encoding(v));
    let w = choose|w: OriginV| origin_encoding(w) == origin_encoding(v);
    lemma_origin_encoding_injective(w, v);
}

/// Renders an origin in the reply correlation format, as
/// [`origin_encoding`] states it.
pub fn encode_origin(o: &InterpreterOrigin) -> (r: String)
    ensures
        r@ == origin_encoding(o@),
{
    proof {
        reveal_strlit(",");
    }
    let mut r = u128_to_dec(o.user_origin.network_id.0 as u128);
    r.append(",");
    let hex = to_hex(&o.salt);
    r.append(hex.as_str());
    r.append(",");
    r.append(o.user_origin.user_id.as_str());
    proof {
        assert(r@ =~= origin_encoding(o@));
    }
    r
}

/// Reads an origin back out of the reply correlation format.
/// Succeeds exactly on texts [`origin_encoding`] produces, and then
/// returns the encoded origin.
pub fn decode_origin(s: &str) -> (r: Option<InterpreterOrigin>)
    ensures
        match r {
            Some(o) => origin_of_encoding(s@) == Some(o@),
            None => origin_of_encoding(s@) is None,
        },
{
    let n = s.unicode_len();
    let scanned = scan_dec(s, 0, 4294967295u64);
    proof {
        if exists|v: OriginV| origin_encoding(v) == s@ {
            let v = choose|v: OriginV| origin_encoding(v) == s@;
            lemma_origin_encoding_shape(v);
            lemma_dec_roundtrip(v.network_id as nat);
            let a = dec_of(v.network_id as nat);
            assert forall|i: int| 0 <= i < a.len() implies is_digit(#[trigger] s@[i]) by {
                assert(s@.subrange(0, a.len() as int)[i] == s@[i]);
                assert(a[i] == s@[i]);
            }
            assert(!is_digit(s@[a.len() as int]));
            crate::codec::lemma_digit_run_exact(s@, 0, a.len() as int);
            assert(s@.subrange(0, a.len() as int) == a);
            assert(dec_val(s@.subrange(0, a.len() as int)) == v.network_id as nat);
        }
    }
    let (net, p) = match scanned {
        Some(pair) => pair,
        None => {
            return None;
        },
    };
    // The decimal field is canonical: no leading zero.
    if p > 1 && s.get_char(0) == '0' {
        proof {
            if exists|v: OriginV| origin_encoding(v) == s@ {
                let v = choose|v: OriginV| origin_encoding(v) == s@;
                lemma_origin_encoding_shape(v);
                lemma_dec_roundtrip(v.network_id as nat);
                let a = dec_of(v.network_id as nat);
                assert(a[0] == s@.subrange(0, a.len() as int)[0]);
            }
        }
        return None;
    }
    if p >= n || s.get_char(p) != ',' {
        proof {
            if exists|v: OriginV| origin_encoding(v) == s@ {
                let v = choose|v: OriginV| origin_encoding(v) == s@;
                lemma_origin_encoding_shape(v);
            }
        }
        return None;
    }
    // Find the comma ending the hexadecimal field; hexadecimal
    // characters are never commas.
    let mut q = p + 1;
    while q < n && s.get_char(q) != ','
        invariant
            p + 1 <= q <= n,
            n == s@.len(),
            forall|j: int| p + 1 <= j < q ==> s@[j] != ',',
        decreases n - q,
    {
        q = q + 1;
    }
    if q == n {
        proof {
            if exists|v: OriginV| origin_encoding(v) == s@ {
                let v = choose|v: OriginV| origin_encoding(v) == s@;
                lemma_origin_encoding_shape(v);
                let a = dec_of(v.network_id as nat);
                let b = hex_of(v.salt);
                assert(s@[a.len() + 1 + b.len() as int] == ',');
            }
        }
        return None;
    }
    let salt = match from_hex(s, p + 1, q) {
        Some(bytes) => bytes,
        None => {
            proof {
                if exists|v: OriginV| origin_encoding(v) == s@ {
                    let v = choose|v: OriginV| origin_encoding(v) == s@;
                    lemma_origin_encoding_shape(v);
                    lemma_dec_roundtrip(v.network_id as nat);
                    let a = dec_of(v.network_id as nat);
                    let b = hex_of(v.salt);
                    lemma_hex_of_shape(v.salt);
                    assert(a.len() == p) by {
                        crate::codec::lemma_digit_run_exact(s@, 0, a.len() as int);
                    }
                    assert(q == a.len() + 1 + b.len() as int) by {
                        assert(s@[a.len() + 1 + b.len() as int] == ',');
                        if q < a.len() + 1 + b.len() as int {
                            let j = q - (a.len() + 1) as int;
                            assert(s@.subrange(a.len() + 1 as int, a.len() + 1 + b.len() as int)[j] == s@[q as int]);
                            assert(is_hex_char(b[j]));
                            assert(!is_hex_char(','));
                        }
                    }
                    assert(s@.subrange(p as int + 1, q as int) == b);
                    assert(hex_of(v.salt) == s@.subrange(p as int + 1, q as int));
                }
            }
            return None;
        },
    };
    let user = s.substring_char(q + 1, n).to_owned();
    let origin = InterpreterOrigin {
        user_origin: UserOrigin { network_id: NetworkId(net as u32), user_id: user },
        salt,
    };
    proof {
        let a = s@.subrange(0, p as int);
        lemma_digit_run_end(s@, 0);
        assert(a.len() >= 1);
        assert(all_digits(a)) by {
            assert forall|i: int| 0 <= i < a.len() implies is_digit(#[trigger] a[i]) by {
                assert(a[i] == s@[i]);
            }
        }
        assert(a.len() > 1 ==> a[0] != '0') by {
            assert(a[0] == s@[0]);
        }
        lemma_dec_canonical(a);
        assert(dec_of(net as nat) == a);
        assert(origin_encoding(origin@) =~= s@);
        lemma_origin_roundtrip(origin@);
    }
    Some(origin)
}

} // verus!
