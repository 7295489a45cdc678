use vstd::prelude::*;

use crate::codec::{char_nibble, dec_of, dec_val, digit_run_end, is_digit, is_hex_char,
    lemma_dec_roundtrip, lemma_digit_run_end, lemma_digit_run_exact, nibble_char, nibble_str,
    nibble_val, scan_dec, u128_to_dec};

verus! {

// ---------------------------------------------------------------- types

/// Routing for a hop that stays inside one ecosystem: an optional
/// parent-chain id; absence means the root chain of that ecosystem.
#[derive(Clone, Copy, Debug, PartialEq, Eq, Structural)]
pub struct IbcSubstrate {
    pub para_id: Option<u32>,
}

impl IbcSubstrate {
    /// A same-ecosystem routing extension.
    pub fn new(para_id: Option<u32>) -> (r: Self)
        ensures
            r.para_id == para_id,
    {
        IbcSubstrate { para_id }
    }
}

/// One hop of a packet-forward memo: the routing fields a forwarding
/// chain reads, plus optionally the next hop.  The wire form is a
/// JSON object with optional fields left out.
#[derive(Debug, PartialEq, Eq)]
pub struct Forward {
    pub receiver: String,
    pub port: Option<String>,
    pub channel: Option<String>,
    pub timeout: Option<String>,
    pub retries: Option<u8>,
    pub substrate: Option<IbcSubstrate>,
    pub next: Option<Box<Forward>>,
}

/// Mathematical value of a [`Forward`] tree.
#[verifier::ext_equal]
pub struct MemoV {
    pub receiver: Seq<char>,
    pub port: Option<Seq<char>>,
    pub channel: Option<Seq<char>>,
    pub timeout: Option<Seq<char>>,
    pub retries: Option<u8>,
    pub substrate: Option<Option<u32>>,
    pub next: Option<Box<MemoV>>,
}

pub open spec fn opt_view(o: Option<String>) -> Option<Seq<char>> {
    match o {
        Some(s) => Some(s@),
        None => None,
    }
}

/// The value of a memo tree.
pub open spec fn memo_view(m: Forward) -> MemoV
    decreases m,
{
    MemoV {
        receiver: m.receiver@,
        port: opt_view(m.port),
        channel: opt_view(m.channel),
        timeout: opt_view(m.timeout),
        retries: m.retries,
        substrate: match m.substrate {
            Some(s) => Some(s.para_id),
            None => None,
        },
        next: match m.next {
            Some(b) => Some(Box::new(memo_view(*b))),
            None => None,
        },
    }
}

impl Forward {
    /// A generic bridging hop: explicit port, channel, timeout and
    /// retry budget, no extension and no next hop yet.
    pub fn new_ibc_memo(receiver: String, port: String, channel: String, timeout: String, retries: u8)
        -> (r: Self)
        ensures
            memo_view(r) == (MemoV {
                receiver: receiver@,
                port: Some(port@),
                channel: Some(channel@),
                timeout: Some(timeout@),
                retries: Some(retries),
                substrate: None::<Option<u32>>,
                next: None::<Box<MemoV>>,
            }),
    {
        Forward {
            receiver,
            port: Some(port),
            channel: Some(channel),
            timeout: Some(timeout),
            retries: Some(retries),
            substrate: None,
            next: None,
        }
    }

    /// A same-ecosystem hop: only the receiver and the routing
    /// extension travel.
    pub fn new_xcm_memo(receiver: String, substrate: IbcSubstrate) -> (r: Self)
        ensures
            memo_view(r) == (MemoV {
                receiver: receiver@,
                port: None::<Seq<char>>,
                channel: None::<Seq<char>>,
                timeout: None::<Seq<char>>,
                retries: None::<u8>,
                substrate: Some(substrate.para_id),
                next: None::<Box<MemoV>>,
            }),
    {
        Forward {
            receiver,
            port: None,
            channel: None,
            timeout: None,
            retries: None,
            substrate: Some(substrate),
            next: None,
        }
    }
}

// ------------------------------------------------------------ wire form

/// The character a canonical two-nibble control escape denotes.
pub open spec fn char_of_code(n: nat) -> char {
    if n == 0 { '\u{0}' }
    else if n == 1 { '\u{1}' }
    else if n == 2 { '\u{2}' }
    else if n == 3 { '\u{3}' }
    else if n == 4 { '\u{4}' }
    else if n == 5 { '\u{5}' }
    else if n == 6 { '\u{6}' }
    else if n == 7 { '\u{7}' }
    else if n == 8 { '\u{8}' }
    else if n == 9 { '\u{9}' }
    else if n == 10 { '\u{a}' }
    else if n == 11 { '\u{b}' }
    else if n == 12 { '\u{c}' }
    else if n == 13 { '\u{d}' }
    else if n == 14 { '\u{e}' }
    else if n == 15 { '\u{f}' }
    else if n == 16 { '\u{10}' }
    else if n == 17 { '\u{11}' }
    else if n == 18 { '\u{12}' }
    else if n == 19 { '\u{13}' }
    else if n == 20 { '\u{14}' }
    else if n == 21 { '\u{15}' }
    else if n == 22 { '\u{16}' }
    else if n == 23 { '\u{17}' }
    else if n == 24 { '\u{18}' }
    else if n == 25 { '\u{19}' }
    else if n == 26 { '\u{1a}' }
    else if n == 27 { '\u{1b}' }
    else if n == 28 { '\u{1c}' }
    else if n == 29 { '\u{1d}' }
    else if n == 30 { '\u{1e}' }
    else { '\u{1f}' }
}

/// Wire form of one text character: a quote or backslash travels
/// escaped, a control character as a `\u00` escape with two
/// lower-case nibbles, anything else raw.
pub open spec fn esc_char(c: char) -> Seq<char> {
    if c == '"' {
        seq!['\\', '"']
    } else if c == '\\' {
        seq!['\\', '\\']
    } else if (c as u32) < 32 {
        seq![
            '\\',
            'u',
            '0',
            '0',
            nibble_char(((c as u32) / 16) as nat),
            nibble_char(((c as u32) % 16) as nat),
        ]
    } else {
        seq![c]
    }
}

/// Wire form of a text: each character escaped as needed.
pub open spec fn esc_text(s: Seq<char>) -> Seq<char>
    decreases s.len(),
{
    if s.len() == 0 {
        Seq::empty()
    } else {
        esc_text(s.drop_last()) + esc_char(s.last())
    }
}


/// One control character, as a one-character string.
fn control_str(b: u8) -> (r: &'static str)
    requires
        b < 32,
    ensures
        r@ =~= seq![char_of_code(b as nat)],
{
    proof {
        reveal_strlit("\u{0}");
        reveal_strlit("\u{1}");
        reveal_strlit("\u{2}");
        reveal_strlit("\u{3}");
        reveal_strlit("\u{4}");
        reveal_strlit("\u{5}");
        reveal_strlit("\u{6}");
        reveal_strlit("\u{7}");
        reveal_strlit("\u{8}");
        reveal_strlit("\u{9}");
        reveal_strlit("\u{a}");
        reveal_strlit("\u{b}");
        reveal_strlit("\u{c}");
        reveal_strlit("\u{d}");
        reveal_strlit("\u{e}");
        reveal_strlit("\u{f}");
        reveal_strlit("\u{10}");
        reveal_strlit("\u{11}");
        reveal_strlit("\u{12}");
        reveal_strlit("\u{13}");
        reveal_strlit("\u{14}");
        reveal_strlit("\u{15}");
        reveal_strlit("\u{16}");
        reveal_strlit("\u{17}");
        reveal_strlit("\u{18}");
        reveal_strlit("\u{19}");
        reveal_strlit("\u{1a}");
        reveal_strlit("\u{1b}");
        reveal_strlit("\u{1c}");
        reveal_strlit("\u{1d}");
        reveal_strlit("\u{1e}");
        reveal_strlit("\u{1f}");
    }
    match b {
        0 => "\u{0}",
        1 => "\u{1}",
        2 => "\u{2}",
        3 => "\u{3}",
        4 => "\u{4}",
        5 => "\u{5}",
        6 => "\u{6}",
        7 => "\u{7}",
        8 => "\u{8}",
        9 => "\u{9}",
        10 => "\u{a}",
        11 => "\u{b}",
        12 => "\u{c}",
        13 => "\u{d}",
        14 => "\u{e}",
        15 => "\u{f}",
        16 => "\u{10}",
        17 => "\u{11}",
        18 => "\u{12}",
        19 => "\u{13}",
        20 => "\u{14}",
        21 => "\u{15}",
        22 => "\u{16}",
        23 => "\u{17}",
        24 => "\u{18}",
        25 => "\u{19}",
        26 => "\u{1a}",
        27 => "\u{1b}",
        28 => "\u{1c}",
        29 => "\u{1d}",
        30 => "\u{1e}",
        _ => "\u{1f}",
    }
}

/// Renders a text in its wire form, as [`esc_text`] states it.
fn esc_string(s: &str) -> (r: String)
    ensures
        r@ == esc_text(s@),
{
    let n = s.unicode_len();
    let mut r = String::new();
    let mut i: usize = 0;
    proof {
        assert(s@.subrange(0, 0) =~= Seq::<char>::empty());
    }
    while i < n
        invariant
            i <= n,
            n == s@.len(),
            r@ == esc_text(s@.subrange(0, i as int)),
        decreases n - i,
    {
        let c = s.get_char(i);
        proof {
            reveal_strlit("\\\"");
            reveal_strlit("\\\\");
            reveal_strlit("\\u00");
            assert(s@.subrange(0, i as int + 1).drop_last() =~= s@.subrange(0, i as int));
            assert(s@.subrange(0, i as int + 1).last() == s@[i as int]);
        }
        if c == '"' {
            r.append("\\\"");
        } else if c == '\\' {
            r.append("\\\\");
        } else if (c as u32) < 32 {
            let code = c as u32;
            r.append("\\u00");
            let hi = nibble_str((code / 16) as u8);
            r.append(hi);
            let lo = nibble_str((code % 16) as u8);
            r.append(lo);
            proof {
                assert((code / 16) as u8 as nat == ((c as u32) / 16) as nat);
                assert((code % 16) as u8 as nat == ((c as u32) % 16) as nat);
            }
        } else {
            let piece = s.substring_char(i, i + 1);
            r.append(piece);
            proof {
                assert(piece@ =~= seq![s@[i as int]]);
            }
        }
        proof {
            assert(r@ =~= esc_text(s@.subrange(0, i as int + 1)));
        }
        i = i + 1;
    }
    proof {
        assert(s@.subrange(0, n as int) =~= s@);
    }
    r
}

/// The two node shapes the builders produce: a bridging hop carries
/// port, channel, timeout and retries; a same-ecosystem hop carries
/// only the extension.
pub open spec fn built_shape(v: MemoV) -> bool {
    ||| (v.port is Some && v.channel is Some && v.timeout is Some && v.retries is Some
        && v.substrate is None)
    ||| (v.port is None && v.channel is None && v.timeout is None && v.retries is None
        && v.substrate is Some)
}

/// A memo tree as the builders construct it: every node has one of
/// the two built shapes.  The text fields are arbitrary; the wire
/// form escapes them.
pub open spec fn wf_memo(v: MemoV) -> bool
    decreases v,
{
    &&& built_shape(v)
    &&& match v.next {
        Some(b) => wf_memo(*b),
        None => true,
    }
}

/// Wire form of the routing extension.
pub open spec fn sub_ser(pid: Option<u32>) -> Seq<char> {
    match pid {
        Some(n) => "{\"para_id\":"@ + dec_of(n as nat) + "}"@,
        None => "{}"@,
    }
}

/// Wire form of one memo tree: a JSON object with the optional
/// fields left out, fields in fixed order, nothing escaped.
pub open spec fn memo_ser(v: MemoV) -> Seq<char>
    decreases v,
{
    "{\"receiver\":\""@ + esc_text(v.receiver) + "\""@ + (match v.port {
        Some(p) => ",\"port\":\""@ + esc_text(p) + "\""@,
        None => Seq::empty(),
    }) + (match v.channel {
        Some(p) => ",\"channel\":\""@ + esc_text(p) + "\""@,
        None => Seq::empty(),
    }) + (match v.timeout {
        Some(p) => ",\"timeout\":\""@ + esc_text(p) + "\""@,
        None => Seq::empty(),
    }) + (match v.retries {
        Some(n) => ",\"retries\":"@ + dec_of(n as nat),
        None => Seq::empty(),
    }) + (match v.substrate {
        Some(pid) => ",\"substrate\":"@ + sub_ser(pid),
        None => Seq::empty(),
    }) + (match v.next {
        Some(b) => ",\"next\":"@ + memo_ser(*b),
        None => Seq::empty(),
    }) + "}"@
}

/// One quoted text field: the key, the escaped text, the closing
/// quote.
fn quoted_field(key: &str, p: &str) -> (r: String)
    ensures
        r@ == key@ + esc_text(p@) + "\""@,
{
    let mut r = key.to_owned();
    let piece = esc_string(p);
    r.append(piece.as_str());
    r.append("\"");
    r
}

/// Serializes one memo tree, as [`memo_ser`] states it.
pub fn to_json(m: &Forward) -> (r: String)
    ensures
        r@ == memo_ser(memo_view(*m)),
    decreases *m,
{
    let ghost v = memo_view(*m);
    let mut r = quoted_field("{\"receiver\":\"", m.receiver.as_str());
    let ghost g1 = "{\"receiver\":\""@ + esc_text(v.receiver) + "\""@;
    if let Some(p) = &m.port {
        let piece = quoted_field(",\"port\":\"", p.as_str());
        r.append(piece.as_str());
    }
    let ghost g2 = g1 + (match v.port {
        Some(p) => ",\"port\":\""@ + esc_text(p) + "\""@,
        None => Seq::empty(),
    });
    proof {
        if v.port is None {
            assert(r@ =~= g2);
        }
    }
    if let Some(p) = &m.channel {
        let piece = quoted_field(",\"channel\":\"", p.as_str());
        r.append(piece.as_str());
    }
    let ghost g3 = g2 + (match v.channel {
        Some(p) => ",\"channel\":\""@ + esc_text(p) + "\""@,
        None => Seq::empty(),
    });
    proof {
        if v.channel is None {
            assert(r@ =~= g3);
        }
    }
    if let Some(p) = &m.timeout {
        let piece = quoted_field(",\"timeout\":\"", p.as_str());
        r.append(piece.as_str());
    }
    let ghost g4 = g3 + (match v.timeout {
        Some(p) => ",\"timeout\":\""@ + esc_text(p) + "\""@,
        None => Seq::empty(),
    });
    proof {
        if v.timeout is None {
            assert(r@ =~= g4);
        }
    }
    if let Some(n) = &m.retries {
        let mut piece = ",\"retries\":".to_owned();
        let num = u128_to_dec(*n as u128);
        piece.append(num.as_str());
        r.append(piece.as_str());
    }
    let ghost g5 = g4 + (match v.retries {
        Some(n) => ",\"retries\":"@ + dec_of(n as nat),
        None => Seq::empty(),
    });
    proof {
        if v.retries is None {
            assert(r@ =~= g5);
        }
    }
    if let Some(sub) = &m.substrate {
        let mut piece = ",\"substrate\":".to_owned();
        match &sub.para_id {
            Some(pid) => {
                let mut body = "{\"para_id\":".to_owned();
                let num = u128_to_dec(*pid as u128);
                body.append(num.as_str());
                body.append("}");
                piece.append(body.as_str());
            },
            None => {
                piece.append("{}");
            },
        }
        r.append(piece.as_str());
    }
    let ghost g6 = g5 + (match v.substrate {
        Some(pid) => ",\"substrate\":"@ + sub_ser(pid),
        None => Seq::empty(),
    });
    proof {
        if v.substrate is None {
            assert(r@ =~= g6);
        } else {
            assert(r@ =~= g6);
        }
    }
    if let Some(b) = &m.next {
        let mut piece = ",\"next\":".to_owned();
        let inner = to_json(b);
        piece.append(inner.as_str());
        r.append(piece.as_str());
    }
    let ghost g7 = g6 + (match v.next {
        Some(b) => ",\"next\":"@ + memo_ser(*b),
        None => Seq::empty(),
    });
    proof {
        if v.next is None {
            assert(r@ =~= g7);
        }
    }
    r.append("}");
    proof {
        assert(memo_ser(v) == g7 + "}"@);
    }
    r
}

// --------------------------------------------------------------- parsing

/// Position after `t` when `s` carries exactly `t` at `i`.
pub open spec fn expect_at(s: Seq<char>, i: int, t: Seq<char>) -> Option<int> {
    if 0 <= i && i + t.len() <= s.len() && s.subrange(i, i + t.len() as int) == t {
        Some(i + t.len() as int)
    } else {
        None
    }
}

/// Reads a text from `i` up to its closing quote, undoing the
/// canonical escapes: fails on a stray backslash form, a raw
/// control character, or a missing closing quote.
pub open spec fn parse_text_at(s: Seq<char>, i: int) -> Option<(Seq<char>, int)>
    decreases s.len() - i,
{
    if i < 0 || i >= s.len() {
        None
    } else if s[i] == '"' {
        Some((Seq::empty(), i + 1))
    } else if s[i] == '\\' {
        if i + 1 < s.len() && (s[i + 1] == '"' || s[i + 1] == '\\') {
            match parse_text_at(s, i + 2) {
                None => None,
                Some(t) => Some((seq![s[i + 1]] + t.0, t.1)),
            }
        } else if i + 5 < s.len() && s[i + 1] == 'u' && s[i + 2] == '0' && s[i + 3] == '0'
            && is_hex_char(s[i + 4]) && is_hex_char(s[i + 5]) && nibble_val(s[i + 4]) * 16
            + nibble_val(s[i + 5]) < 32 {
            match parse_text_at(s, i + 6) {
                None => None,
                Some(t) => Some(
                    (seq![char_of_code(nibble_val(s[i + 4]) * 16 + nibble_val(s[i + 5]))] + t.0, t.1),
                ),
            }
        } else {
            None
        }
    } else if (s[i] as u32) < 32 {
        None
    } else {
        match parse_text_at(s, i + 1) {
            None => None,
            Some(t) => Some((seq![s[i]] + t.0, t.1)),
        }
    }
}

/// A canonical decimal at `i`: non-empty, no leading zero, value at
/// most `max`.
pub open spec fn parse_num_at(s: Seq<char>, i: int, max: nat) -> Option<(nat, int)> {
    let e = digit_run_end(s, i);
    if i < 0 || e == i {
        None
    } else if e - i > 1 && s[i] == '0' {
        None
    } else if dec_val(s.subrange(i, e)) > max {
        None
    } else {
        Some((dec_val(s.subrange(i, e)), e))
    }
}

/// An optional quoted text field introduced by `key`: absent when
/// the key is not there, a hard failure when the key is there but
/// the text never closes.
pub open spec fn parse_opt_text(s: Seq<char>, i: int, key: Seq<char>) -> Option<
    (Option<Seq<char>>, int),
> {
    match expect_at(s, i, key) {
        None => Some((None, i)),
        Some(j) => match parse_text_at(s, j) {
            None => None,
            Some(t) => Some((Some(t.0), t.1)),
        },
    }
}

/// The optional retries field.
pub open spec fn parse_opt_retries(s: Seq<char>, i: int) -> Option<(Option<u8>, int)> {
    match expect_at(s, i, ",\"retries\":"@) {
        None => Some((None, i)),
        Some(j) => match parse_num_at(s, j, 255) {
            None => None,
            Some(t) => Some((Some(t.0 as u8), t.1)),
        },
    }
}

/// The optional routing-extension field.
pub open spec fn parse_opt_sub(s: Seq<char>, i: int) -> Option<(Option<Option<u32>>, int)> {
    match expect_at(s, i, ",\"substrate\":"@) {
        None => Some((None, i)),
        Some(j) => match expect_at(s, j, "{}"@) {
            Some(k) => Some((Some(None), k)),
            None => match expect_at(s, j, "{\"para_id\":"@) {
                None => None,
                Some(k) => match parse_num_at(s, k, u32::MAX as nat) {
                    None => None,
                    Some(t) => match expect_at(s, t.1, "}"@) {
                        None => None,
                        Some(f) => Some((Some(Some(t.0 as u32)), f)),
                    },
                },
            },
        },
    }
}

/// One memo object at `i`: the canonical wire form, fields in
/// order, each optional field taken exactly when its key is there.
pub open spec fn parse_memo_at(s: Seq<char>, i: int, depth: nat) -> Option<(MemoV, int)>
    decreases depth,
{
    if depth == 0 {
        None
    } else {
        match expect_at(s, i, "{\"receiver\":\""@) {
            None => None,
            Some(i1) => match parse_text_at(s, i1) {
                None => None,
                Some(rt) => match parse_opt_text(s, rt.1, ",\"port\":\""@) {
                    None => None,
                    Some(pt) => match parse_opt_text(s, pt.1, ",\"channel\":\""@) {
                        None => None,
                        Some(ct) => match parse_opt_text(s, ct.1, ",\"timeout\":\""@) {
                            None => None,
                            Some(tt) => match parse_opt_retries(s, tt.1) {
                                None => None,
                                Some(nt) => match parse_opt_sub(s, nt.1) {
                                    None => None,
                                    Some(st) => match (match expect_at(s, st.1, ",\"next\":"@) {
                                        None => Some((None::<Box<MemoV>>, st.1)),
                                        Some(j) => match parse_memo_at(s, j, (depth - 1) as nat) {
                                            None => None,
                                            Some(xt) => Some((Some(Box::new(xt.0)), xt.1)),
                                        },
                                    }) {
                                        None => None,
                                        Some(bt) => match expect_at(s, bt.1, "}"@) {
                                            None => None,
                                            Some(end) => Some(
                                                (
                                                    MemoV {
                                                        receiver: rt.0,
                                                        port: pt.0,
                                                        channel: ct.0,
                                                        timeout: tt.0,
                                                        retries: nt.0,
                                                        substrate: st.0,
                                                        next: bt.0,
                                                    },
                                                    end,
                                                ),
                                            ),
                                        },
                                    },
                                },
                            },
                        },
                    },
                },
            },
        }
    }
}


/// Position after `lit` when the text carries it at `i`, as
/// [`expect_at`] states it.
fn expect_lit(s: &str, n: usize, i: usize, lit: &str) -> (r: Option<usize>)
    requires
        n == s@.len(),
        i <= n,
    ensures
        match r {
            Some(j) => expect_at(s@, i as int, lit@) == Some(j as int) && i <= j <= n
                && j == i + lit@.len(),
            None => expect_at(s@, i as int, lit@) is None,
        },
{
    let l = lit.unicode_len();
    if l > n - i {
        return None;
    }
    let mut k: usize = 0;
    while k < l
        invariant
            k <= l,
            l == lit@.len(),
            n == s@.len(),
            i + l <= n,
            forall|t: int| 0 <= t < k ==> s@[i + t] == lit@[t],
        decreases l - k,
    {
        if s.get_char(i + k) != lit.get_char(k) {
            proof {
                assert(s@.subrange(i as int, i + l as int)[k as int] == s@[i + k]);
            }
            return None;
        }
        k = k + 1;
    }
    proof {
        assert(s@.subrange(i as int, i + l as int) =~= lit@);
    }
    Some(i + l)
}

/// Reads and unescapes a text up to its closing quote, as
/// [`parse_text_at`] states it.
fn take_text(s: &str, n: usize, i: usize) -> (r: Option<(String, usize)>)
    requires
        n == s@.len(),
        i <= n,
    ensures
        match r {
            Some(t) => parse_text_at(s@, i as int) == Some((t.0@, t.1 as int)) && i < t.1 <= n,
            None => parse_text_at(s@, i as int) is None,
        },
{
    let mut out = String::new();
    let mut j = i;
    proof {
        assert(out@ =~= Seq::<char>::empty());
        match parse_text_at(s@, i as int) {
            Some(t) => {
                assert(out@ + t.0 =~= t.0);
            },
            None => {},
        }
    }
    while j < n
        invariant
            i <= j <= n,
            n == s@.len(),
            parse_text_at(s@, i as int) == match parse_text_at(s@, j as int) {
                None => None::<(Seq<char>, int)>,
                Some(t) => Some((out@ + t.0, t.1)),
            },
        decreases n - j,
    {
        let c = s.get_char(j);
        if c == '"' {
            proof {
                assert(out@ + Seq::<char>::empty() =~= out@);
            }
            return Some((out, j + 1));
        }
        if c == '\\' {
            if j + 1 < n {
                let d = s.get_char(j + 1);
                if d == '"' || d == '\\' {
                    proof {
                        reveal_strlit("\"");
                        reveal_strlit("\\");
                    }
                    let ghost prev = out@;
                    if d == '"' {
                        out.append("\"");
                    } else {
                        out.append("\\");
                    }
                    proof {
                        assert(out@ =~= prev + seq![s@[j as int + 1]]);
                        match parse_text_at(s@, j as int + 2) {
                            Some(t) => {
                                assert(out@ + t.0 =~= prev + (seq![s@[j as int + 1]] + t.0));
                            },
                            None => {},
                        }
                    }
                    j = j + 2;
                } else if n - j > 5 && d == 'u' {
                    let z2 = s.get_char(j + 2);
                    let z3 = s.get_char(j + 3);
                    let hi = char_nibble(s.get_char(j + 4));
                    let lo = char_nibble(s.get_char(j + 5));
                    if z2 == '0' && z3 == '0' && hi < 16 && lo < 16 && hi * 16 + lo < 32 {
                        let ghost prev = out@;
                        let piece = control_str(hi * 16 + lo);
                        out.append(piece);
                        proof {
                            let code = nibble_val(s@[j as int + 4]) * 16 + nibble_val(
                                s@[j as int + 5],
                            );
                            assert(out@ =~= prev + seq![char_of_code(code)]);
                            match parse_text_at(s@, j as int + 6) {
                                Some(t) => {
                                    assert(out@ + t.0 =~= prev + (seq![char_of_code(code)] + t.0));
                                },
                                None => {},
                            }
                        }
                        j = j + 6;
                    } else {
                        return None;
                    }
                } else {
                    return None;
                }
            } else {
                return None;
            }
        } else if (c as u32) < 32 {
            return None;
        } else {
            let ghost prev = out@;
            let piece = s.substring_char(j, j + 1);
            out.append(piece);
            proof {
                assert(piece@ =~= seq![s@[j as int]]);
                assert(out@ =~= prev + seq![s@[j as int]]);
                match parse_text_at(s@, j as int + 1) {
                    Some(t) => {
                        assert(out@ + t.0 =~= prev + (seq![s@[j as int]] + t.0));
                    },
                    None => {},
                }
            }
            j = j + 1;
        }
    }
    None
}

/// A canonical decimal, as [`parse_num_at`] states it.
fn take_num(s: &str, n: usize, i: usize, max: u64) -> (r: Option<(u64, usize)>)
    requires
        n == s@.len(),
        i <= n,
        max <= u32::MAX,
    ensures
        match r {
            Some(t) => parse_num_at(s@, i as int, max as nat) == Some((t.0 as nat, t.1 as int))
                && i < t.1 <= n && t.0 <= max,
            None => parse_num_at(s@, i as int, max as nat) is None,
        },
{
    proof {
        lemma_digit_run_end(s@, i as int);
    }
    match scan_dec(s, i, max) {
        Some(pair) => {
            let (value, end) = pair;
            if end - i > 1 && s.get_char(i) == '0' {
                return None;
            }
            Some((value, end))
        },
        None => None,
    }
}

/// One memo object, as [`parse_memo_at`] states it.
#[verifier::rlimit(100)]
fn parse_forward(s: &str, n: usize, i: usize, depth: usize) -> (r: Option<(Forward, usize)>)
    requires
        n == s@.len(),
        i <= n,
    ensures
        match r {
            Some(t) => parse_memo_at(s@, i as int, depth as nat) == Some(
                (memo_view(t.0), t.1 as int),
            ) && i < t.1 <= n,
            None => parse_memo_at(s@, i as int, depth as nat) is None,
        },
    decreases depth,
{
    if depth == 0 {
        return None;
    }
    let i1 = match expect_lit(s, n, i, "{\"receiver\":\"") {
        Some(j) => j,
        None => {
            return None;
        },
    };
    let (receiver, i2) = match take_text(s, n, i1) {
        Some(t) => t,
        None => {
            return None;
        },
    };
    let (port, i3) = match expect_lit(s, n, i2, ",\"port\":\"") {
        Some(j) => match take_text(s, n, j) {
            Some(t) => (Some(t.0), t.1),
            None => {
                return None;
            },
        },
        None => (None, i2),
    };
    let (channel, i4) = match expect_lit(s, n, i3, ",\"channel\":\"") {
        Some(j) => match take_text(s, n, j) {
            Some(t) => (Some(t.0), t.1),
            None => {
                return None;
            },
        },
        None => (None, i3),
    };
    let (timeout, i5) = match expect_lit(s, n, i4, ",\"timeout\":\"") {
        Some(j) => match take_text(s, n, j) {
            Some(t) => (Some(t.0), t.1),
            None => {
                return None;
            },
        },
        None => (None, i4),
    };
    let (retries, i6) = match expect_lit(s, n, i5, ",\"retries\":") {
        Some(j) => match take_num(s, n, j, 255) {
            Some(t) => (Some(t.0 as u8), t.1),
            None => {
                return None;
            },
        },
        None => (None, i5),
    };
    let (substrate, i7) = match expect_lit(s, n, i6, ",\"substrate\":") {
        Some(j) => match expect_lit(s, n, j, "{}") {
            Some(k) => (Some(IbcSubstrate { para_id: None }), k),
            None => match expect_lit(s, n, j, "{\"para_id\":") {
                Some(k) => match take_num(s, n, k, 4294967295u64) {
                    Some(t) => match expect_lit(s, n, t.1, "}") {
                        Some(f) => (Some(IbcSubstrate { para_id: Some(t.0 as u32) }), f),
                        None => {
                            return None;
                        },
                    },
                    None => {
                        return None;
                    },
                },
                None => {
                    return None;
                },
            },
        },
        None => (None, i6),
    };
    let (next, i8) = match expect_lit(s, n, i7, ",\"next\":") {
        Some(j) => match parse_forward(s, n, j, depth - 1) {
            Some(t) => (Some(Box::new(t.0)), t.1),
            None => {
                return None;
            },
        },
        None => (None, i7),
    };
    let end = match expect_lit(s, n, i8, "}") {
        Some(end) => end,
        None => {
            return None;
        },
    };
    let built = Forward { receiver, port, channel, timeout, retries, substrate, next };
    proof {
        assert(memo_view(built) =~= parse_memo_at(s@, i as int, depth as nat)->Some_0.0);
    }
    Some((built, end))
}

/// Deserializes one memo tree: succeeds exactly when the whole text
/// is one canonical wire form, as [`parse_memo_at`] states it.
pub fn from_json(s: &str) -> (r: Option<Forward>)
    ensures
        match r {
            Some(m) => parse_memo_at(s@, 0, s@.len()) == Some((memo_view(m), s@.len() as int)),
            None => parse_memo_at(s@, 0, s@.len()) matches Some(t) ==> t.1 != s@.len(),
        },
{
    let n = s.unicode_len();
    match parse_forward(s, n, 0, n) {
        Some(pair) => {
            let (m, j) = pair;
            if j == n {
                Some(m)
            } else {
                None
            }
        },
        None => None,
    }
}


// ------------------------------------------------------------ round trip

/// The wire form of a text decomposes at the front.
proof fn lemma_esc_front(p: Seq<char>)
    requires
        p.len() > 0,
    ensures
        esc_text(p) == esc_char(p[0]) + esc_text(p.drop_first()),
    decreases p.len(),
{
    if p.len() == 1 {
        assert(p.drop_last() =~= Seq::<char>::empty());
        assert(p.drop_first() =~= Seq::<char>::empty());
        assert(esc_text(p) =~= esc_char(p[0]) + esc_text(p.drop_first()));
    } else {
        let q = p.drop_last();
        lemma_esc_front(q);
        assert(q[0] == p[0]);
        assert(p.drop_first().drop_last() =~= q.drop_first());
        assert(p.drop_first().last() == p.last());
        assert(esc_text(p.drop_first()) == esc_text(q.drop_first()) + esc_char(p.last()));
        assert(esc_text(p) == (esc_char(p[0]) + esc_text(q.drop_first())) + esc_char(p.last()));
        assert(esc_text(p) =~= esc_char(p[0]) + esc_text(p.drop_first()));
    }
}

/// A nibble character reads back to its value.
proof fn lemma_nibble_roundtrip(x: nat)
    requires
        x < 16,
    ensures
        nibble_val(nibble_char(x)) == x,
{
}

/// Reading a text's wire form followed by its closing quote gives
/// the text back.
proof fn lemma_parse_esc(p: Seq<char>, s: Seq<char>, b: int)
    requires
        0 <= b,
        b + esc_text(p).len() < s.len(),
        s.subrange(b, b + esc_text(p).len() as int) == esc_text(p),
        s[b + esc_text(p).len()] == '"',
    ensures
        parse_text_at(s, b) == Some((p, b + esc_text(p).len() + 1)),
    decreases p.len(),
{
    let m = esc_text(p);
    if p.len() == 0 {
        assert(m.len() == 0);
        assert(s[b] == '"');
    } else {
        let c = p[0];
        let rest = p.drop_first();
        lemma_esc_front(p);
        let e0 = esc_char(c);
        let er = esc_text(rest);
        assert(m == e0 + er);
        assert forall|k: int| 0 <= k < m.len() implies s[b + k] == m[k] by {
            assert(s.subrange(b, b + m.len() as int)[k] == s[b + k]);
        }
        assert forall|t: int| 0 <= t < e0.len() implies m[t] == e0[t] by {}
        assert forall|t: int| 0 <= t < er.len() implies m[e0.len() + t] == er[t] by {}
        let b2 = b + e0.len() as int;
        assert(s.subrange(b2, b2 + er.len() as int) =~= er) by {
            assert forall|t: int| 0 <= t < er.len() implies s.subrange(
                b2,
                b2 + er.len() as int,
            )[t] == er[t] by {
                let k = e0.len() + t;
                assert(s[b + k] == m[k]);
                assert(s.subrange(b2, b2 + er.len() as int)[t] == s[b2 + t]);
            }
        }
        assert(s[b2 + er.len()] == '"');
        lemma_parse_esc(rest, s, b2);
        assert(seq![c] + rest =~= p);
        if c == '"' || c == '\\' {
            assert(e0 =~= seq!['\\', c]);
            assert(s[b] == '\\' && s[b + 1] == c) by {
                assert(s[b + 0] == m[0]);
                assert(s[b + 1] == m[1]);
            }
            assert(parse_text_at(s, b) == Some((seq![c] + rest, b2 + er.len() + 1)));
        } else if (c as u32) < 32 {
            let code = (c as u32) as int;
            assert(0 <= code < 32);
            vstd::arithmetic::div_mod::lemma_fundamental_div_mod(code, 16);
            assert(0 <= code / 16 < 2 && 0 <= code % 16 < 16);
            assert(e0 =~= seq![
                '\\',
                'u',
                '0',
                '0',
                nibble_char((code / 16) as nat),
                nibble_char((code % 16) as nat),
            ]);
            assert(s[b + 0] == m[0] && s[b + 1] == m[1] && s[b + 2] == m[2] && s[b + 3] == m[3]
                && s[b + 4] == m[4] && s[b + 5] == m[5]);
            assert(s[b] == '\\' && s[b + 1] == 'u' && s[b + 2] == '0' && s[b + 3] == '0');
            lemma_nibble_roundtrip((code / 16) as nat);
            lemma_nibble_roundtrip((code % 16) as nat);
            assert(nibble_val(s[b + 4]) == (code / 16) as nat);
            assert(nibble_val(s[b + 5]) == (code % 16) as nat);
            assert(nibble_val(s[b + 4]) * 16 + nibble_val(s[b + 5]) == code);
            assert(char_of_code(code as nat) == c) by {
                let d = char_of_code(code as nat);
                assert(d as u32 == c as u32);
                vstd::utf8::char_u32_cast(d, d as u32);
                vstd::utf8::char_u32_cast(c, c as u32);
            }
            assert(s[b + 1] != '"' && s[b + 1] != '\\');
            assert(parse_text_at(s, b) == Some((seq![c] + rest, b2 + er.len() + 1)));
        } else {
            assert(e0 =~= seq![c]);
            assert(s[b] == c) by {
                assert(s[b + 0] == m[0]);
            }
            assert(c != '"' && c != '\\' && c as u32 >= 32);
            assert(parse_text_at(s, b) == Some((seq![c] + rest, b2 + er.len() + 1)));
        }
        assert(b2 + er.len() + 1 == b + m.len() + 1);
    }
}

proof fn lemma_expect_hit(s: Seq<char>, a: int, t: Seq<char>)
    requires
        0 <= a,
        a + t.len() <= s.len(),
        s.subrange(a, a + t.len() as int) == t,
    ensures
        expect_at(s, a, t) == Some(a + t.len() as int),
{
}

proof fn lemma_expect_miss(s: Seq<char>, a: int, t: Seq<char>, k: int)
    requires
        0 <= a,
        0 <= k < t.len(),
        a + t.len() <= s.len() ==> s[a + k] != t[k],
    ensures
        expect_at(s, a, t) is None,
{
    if a + t.len() <= s.len() {
        assert(s.subrange(a, a + t.len() as int)[k] == s[a + k]);
    }
}

proof fn lemma_opt_text_hit(s: Seq<char>, a: int, key: Seq<char>, p: Seq<char>)
    requires
        0 <= a,
        a + key.len() + esc_text(p).len() + 1 <= s.len(),
        s.subrange(a, a + key.len() as int) == key,
        s.subrange(a + key.len(), a + key.len() + esc_text(p).len()) == esc_text(p),
        s[a + key.len() + esc_text(p).len()] == '"',
    ensures
        parse_opt_text(s, a, key) == Some(
            (Some(p), a + key.len() + esc_text(p).len() + 1),
        ),
{
    lemma_expect_hit(s, a, key);
    let b = a + key.len() as int;
    lemma_parse_esc(p, s, b);
}

proof fn lemma_opt_text_miss(s: Seq<char>, a: int, key: Seq<char>, k: int)
    requires
        0 <= a,
        0 <= k < key.len(),
        a + key.len() <= s.len() ==> s[a + k] != key[k],
    ensures
        parse_opt_text(s, a, key) == Some((None::<Seq<char>>, a)),
{
    lemma_expect_miss(s, a, key, k);
}

/// A canonical decimal followed by a non-digit reads back to its
/// value.
proof fn lemma_num_hit(s: Seq<char>, a: int, n: nat, max: nat)
    requires
        0 <= a,
        n <= max,
        a + dec_of(n).len() <= s.len(),
        s.subrange(a, a + dec_of(n).len() as int) == dec_of(n),
        a + dec_of(n).len() == s.len() || !is_digit(s[a + dec_of(n).len()]),
    ensures
        parse_num_at(s, a, max) == Some((n, a + dec_of(n).len() as int)),
{
    lemma_dec_roundtrip(n);
    let e = a + dec_of(n).len() as int;
    assert forall|j: int| a <= j < e implies is_digit(s[j]) by {
        assert(s.subrange(a, e)[j - a] == s[j]);
    }
    lemma_digit_run_exact(s, a, e);
    assert(s[a] == dec_of(n)[0]) by {
        assert(s.subrange(a, e)[0] == s[a]);
    }
    assert(s.subrange(a, e) == dec_of(n));
}

/// A region of the carried encoding equals the part it was built
/// from.
proof fn lemma_region(s: Seq<char>, i: int, e: Seq<char>, off: int, part: Seq<char>)
    requires
        0 <= i,
        i + e.len() <= s.len(),
        forall|k: int| 0 <= k < e.len() ==> s[i + k] == e[k],
        0 <= off,
        off + part.len() <= e.len(),
        forall|t: int| 0 <= t < part.len() ==> e[off + t] == part[t],
    ensures
        s.subrange(i + off, i + off + part.len() as int) == part,
{
    assert forall|t: int| 0 <= t < part.len() implies s.subrange(
        i + off,
        i + off + part.len() as int,
    )[t] == part[t] by {
        let k = off + t;
        assert(s[i + k] == e[k]);
        assert(e[k] == part[t]);
        assert(s.subrange(i + off, i + off + part.len() as int)[t] == s[i + off + t]);
    }
    assert(s.subrange(i + off, i + off + part.len() as int) =~= part);
}

/// Reading a serialized bridging hop back gives the hop: the
/// port, channel, timeout and retries fields are present, the
/// extension absent.
#[verifier::rlimit(100)]
proof fn lemma_parse_ser_bridge(v: MemoV, s: Seq<char>, i: int, d: nat)
    requires
        wf_memo(v),
        v.port is Some,
        v.channel is Some,
        v.timeout is Some,
        v.retries is Some,
        v.substrate is None,
        0 <= i,
        i + memo_ser(v).len() <= s.len(),
        s.subrange(i, i + memo_ser(v).len() as int) == memo_ser(v),
        d >= memo_ser(v).len(),
    ensures
        parse_memo_at(s, i, d) == Some((v, i + memo_ser(v).len() as int)),
    decreases v, 0int,
{
    reveal_strlit("{\"receiver\":\"");
    reveal_strlit("\"");
    reveal_strlit(",\"port\":\"");
    reveal_strlit(",\"channel\":\"");
    reveal_strlit(",\"timeout\":\"");
    reveal_strlit(",\"retries\":");
    reveal_strlit(",\"substrate\":");
    reveal_strlit(",\"next\":");
    reveal_strlit("}");
    let e = memo_ser(v);
    let lit_l = "{\"receiver\":\""@;
    let lit_q = "\""@;
    let lit_p = ",\"port\":\""@;
    let lit_c = ",\"channel\":\""@;
    let lit_t = ",\"timeout\":\""@;
    let lit_r = ",\"retries\":"@;
    let lit_s = ",\"substrate\":"@;
    let lit_n = ",\"next\":"@;
    let lit_z = "}"@;
    let po = v.port->Some_0;
    let ch = v.channel->Some_0;
    let ti = v.timeout->Some_0;
    let n8 = v.retries->Some_0;
    let rv = esc_text(v.receiver);
    let poe = esc_text(po);
    let che = esc_text(ch);
    let tie = esc_text(ti);
    let pp = lit_p + poe + lit_q;
    let cp = lit_c + che + lit_q;
    let tp = lit_t + tie + lit_q;
    let rp = lit_r + dec_of(n8 as nat);
    let np = match v.next {
        Some(b) => lit_n + memo_ser(*b),
        None => Seq::<char>::empty(),
    };
    lemma_dec_roundtrip(n8 as nat);
    assert(e == lit_l + rv + lit_q + pp + cp + tp + rp + Seq::<char>::empty() + np + lit_z);
    assert(lit_l.len() == 13 && lit_q.len() == 1 && lit_z.len() == 1);
    assert(lit_p.len() == 9 && lit_c.len() == 12 && lit_t.len() == 12 && lit_r.len() == 11);
    assert(lit_s.len() == 13 && lit_n.len() == 8);
    let o1 = i + 13;
    let o2 = o1 + rv.len() as int;
    let o3 = o2 + 1;
    let o4 = o3 + pp.len() as int;
    let o5 = o4 + cp.len() as int;
    let o6 = o5 + tp.len() as int;
    let o7 = o6 + rp.len() as int;
    let o8 = o7;
    let o9 = o8 + np.len() as int;
    let oend = o9 + 1;
    assert(e.len() == 15 + rv.len() + pp.len() + cp.len() + tp.len() + rp.len() + np.len());
    assert(oend == i + e.len());
    assert forall|k: int| 0 <= k < e.len() implies s[i + k] == e[k] by {
        assert(s.subrange(i, i + e.len() as int)[k] == s[i + k]);
    }
    let a1 = lit_l + rv;
    let a2 = a1 + lit_q;
    let a3 = a2 + pp;
    let a4 = a3 + cp;
    let a5 = a4 + tp;
    let a6 = a5 + rp;
    let a7 = a6 + Seq::<char>::empty();
    let a8 = a7 + np;
    assert(e == a8 + lit_z);
    assert forall|k: int| 0 <= k < a8.len() implies e[k] == a8[k] by {}
    assert forall|k: int| 0 <= k < a7.len() implies e[k] == a7[k] by {
        assert(a8[k] == a7[k]);
    }
    assert forall|k: int| 0 <= k < a6.len() implies e[k] == a6[k] by {
        assert(a7[k] == a6[k]);
    }
    assert forall|k: int| 0 <= k < a5.len() implies e[k] == a5[k] by {
        assert(a6[k] == a5[k]);
    }
    assert forall|k: int| 0 <= k < a4.len() implies e[k] == a4[k] by {
        assert(a5[k] == a4[k]);
    }
    assert forall|k: int| 0 <= k < a3.len() implies e[k] == a3[k] by {
        assert(a4[k] == a3[k]);
    }
    assert forall|k: int| 0 <= k < a2.len() implies e[k] == a2[k] by {
        assert(a3[k] == a2[k]);
    }
    assert forall|k: int| 0 <= k < a1.len() implies e[k] == a1[k] by {
        assert(a2[k] == a1[k]);
    }
    assert forall|t: int| 0 <= t < 13 implies e[t] == lit_l[t] by {
        assert(a1[t] == lit_l[t]);
    }
    assert forall|t: int| 0 <= t < rv.len() implies e[13 + t] == rv[t] by {
        assert(a1[13 + t] == rv[t]);
    }
    assert(e[o2 - i] == lit_q[0]) by {
        assert(a2[a1.len() as int] == lit_q[0]);
    }
    assert(o3 - i == a2.len());
    assert forall|t: int| 0 <= t < pp.len() implies e[(o3 - i) + t] == pp[t] by {
        assert(a3[a2.len() + t] == pp[t]);
    }
    assert(o4 - i == a3.len());
    assert forall|t: int| 0 <= t < cp.len() implies e[(o4 - i) + t] == cp[t] by {
        assert(a4[a3.len() + t] == cp[t]);
    }
    assert(o5 - i == a4.len());
    assert forall|t: int| 0 <= t < tp.len() implies e[(o5 - i) + t] == tp[t] by {
        assert(a5[a4.len() + t] == tp[t]);
    }
    assert(o6 - i == a5.len());
    assert forall|t: int| 0 <= t < rp.len() implies e[(o6 - i) + t] == rp[t] by {
        assert(a6[a5.len() + t] == rp[t]);
    }
    assert(o8 - i == a7.len());
    assert forall|t: int| 0 <= t < np.len() implies e[(o8 - i) + t] == np[t] by {
        assert(a8[a7.len() + t] == np[t]);
    }
    assert(o9 - i == a8.len());
    assert(e[o9 - i] == lit_z[0]);
    assert(s[o2] == lit_q[0]) by {
        assert(s[i + (o2 - i)] == e[o2 - i]);
    }
    assert(s[o9] == lit_z[0]) by {
        assert(s[i + (o9 - i)] == e[o9 - i]);
    }
    lemma_region(s, i, e, 0, lit_l);
    lemma_expect_hit(s, i, lit_l);
    lemma_region(s, i, e, 13, rv);
    assert(s.subrange(o1, o2) == rv);
    assert(o2 < s.len());
    lemma_parse_esc(v.receiver, s, o1);
    assert(parse_text_at(s, o1) == Some((v.receiver, o3)));
    // port
    assert forall|t: int| 0 <= t < 9 implies e[(o3 - i) + t] == lit_p[t] by {
        assert((lit_p + poe)[t] == lit_p[t]);
        assert(pp[t] == (lit_p + poe)[t]);
    }
    assert forall|t: int| 0 <= t < poe.len() implies e[(o3 - i) + 9 + t] == poe[t] by {
        assert((lit_p + poe)[9 + t] == poe[t]);
        assert(pp[9 + t] == (lit_p + poe)[9 + t]);
    }
    lemma_region(s, i, e, o3 - i, lit_p);
    lemma_region(s, i, e, o3 - i + 9, poe);
    assert(s[o3 + 9 + poe.len()] == lit_q[0]) by {
        let k = (o3 - i) + 9 + poe.len() as int;
        assert(s[i + k] == e[k]);
        assert(pp[9 + poe.len() as int] == lit_q[0]);
    }
    lemma_opt_text_hit(s, o3, lit_p, po);
    assert(parse_opt_text(s, o3, lit_p) == Some((Some(po), o4)));
    // channel
    assert forall|t: int| 0 <= t < 12 implies e[(o4 - i) + t] == lit_c[t] by {
        assert((lit_c + che)[t] == lit_c[t]);
        assert(cp[t] == (lit_c + che)[t]);
    }
    assert forall|t: int| 0 <= t < che.len() implies e[(o4 - i) + 12 + t] == che[t] by {
        assert((lit_c + che)[12 + t] == che[t]);
        assert(cp[12 + t] == (lit_c + che)[12 + t]);
    }
    lemma_region(s, i, e, o4 - i, lit_c);
    lemma_region(s, i, e, o4 - i + 12, che);
    assert(s[o4 + 12 + che.len()] == lit_q[0]) by {
        let k = (o4 - i) + 12 + che.len() as int;
        assert(s[i + k] == e[k]);
        assert(cp[12 + che.len() as int] == lit_q[0]);
    }
    lemma_opt_text_hit(s, o4, lit_c, ch);
    assert(parse_opt_text(s, o4, lit_c) == Some((Some(ch), o5)));
    // timeout
    assert forall|t: int| 0 <= t < 12 implies e[(o5 - i) + t] == lit_t[t] by {
        assert((lit_t + tie)[t] == lit_t[t]);
        assert(tp[t] == (lit_t + tie)[t]);
    }
    assert forall|t: int| 0 <= t < tie.len() implies e[(o5 - i) + 12 + t] == tie[t] by {
        assert((lit_t + tie)[12 + t] == tie[t]);
        assert(tp[12 + t] == (lit_t + tie)[12 + t]);
    }
    lemma_region(s, i, e, o5 - i, lit_t);
    lemma_region(s, i, e, o5 - i + 12, tie);
    assert(s[o5 + 12 + tie.len()] == lit_q[0]) by {
        let k = (o5 - i) + 12 + tie.len() as int;
        assert(s[i + k] == e[k]);
        assert(tp[12 + tie.len() as int] == lit_q[0]);
    }
    lemma_opt_text_hit(s, o5, lit_t, ti);
    assert(parse_opt_text(s, o5, lit_t) == Some((Some(ti), o6)));
    // retries
    assert forall|t: int| 0 <= t < 11 implies e[(o6 - i) + t] == lit_r[t] by {
        assert(rp[t] == lit_r[t]);
    }
    assert forall|t: int| 0 <= t < dec_of(n8 as nat).len() implies e[(o6 - i) + 11 + t] == dec_of(
        n8 as nat,
    )[t] by {
        assert(rp[11 + t] == dec_of(n8 as nat)[t]);
    }
    lemma_region(s, i, e, o6 - i, lit_r);
    lemma_region(s, i, e, o6 - i + 11, dec_of(n8 as nat));
    lemma_expect_hit(s, o6, lit_r);
    assert(s[o7] == ',' || s[o7] == '}') by {
        assert(s[i + (o7 - i)] == e[o7 - i]);
        match v.next {
            Some(b) => {
                assert(e[(o8 - i) + 0] == np[0]);
                assert(np[0] == lit_n[0]) by {
                    assert(np == lit_n + memo_ser(*b));
                }
            },
            None => {
                assert(e[o9 - i] == lit_z[0]);
            },
        }
    }
    assert(!is_digit(s[o7]));
    lemma_num_hit(s, o6 + 11, n8 as nat, 255);
    assert(parse_opt_retries(s, o6) == Some((Some(n8), o7)));
    // no extension: the next text starts with a comma-n or a brace
    match v.next {
        Some(b) => {
            assert(np[2] == lit_n[2]) by {
                assert(np == lit_n + memo_ser(*b));
            }
            assert(s[o7 + 2] == lit_n[2]) by {
                let k = (o8 - i) + 2;
                assert(s[i + k] == e[k]);
            }
            lemma_expect_miss(s, o7, lit_s, 2);
        },
        None => {
            assert(s[o7] == lit_z[0]);
            lemma_expect_miss(s, o7, lit_s, 0);
        },
    }
    assert(parse_opt_sub(s, o7) == Some((None::<Option<u32>>, o7)));
    // next
    match v.next {
        Some(b) => {
            assert(np == lit_n + memo_ser(*b));
            assert forall|t: int| 0 <= t < 8 implies e[(o8 - i) + t] == lit_n[t] by {
                assert(np[t] == lit_n[t]);
            }
            assert forall|t: int| 0 <= t < memo_ser(*b).len() implies e[(o8 - i) + 8 + t]
                == memo_ser(*b)[t] by {
                assert(np[8 + t] == memo_ser(*b)[t]);
            }
            lemma_region(s, i, e, o8 - i, lit_n);
            lemma_expect_hit(s, o8, lit_n);
            lemma_region(s, i, e, o8 - i + 8, memo_ser(*b));
            lemma_parse_ser(*b, s, o8 + 8, (d - 1) as nat);
            assert(parse_memo_at(s, o8 + 8, (d - 1) as nat) == Some((*b, o9)));
        },
        None => {
            assert(s[o8] == lit_z[0]);
            lemma_expect_miss(s, o8, lit_n, 0);
        },
    }
    lemma_region(s, i, e, o9 - i, lit_z);
    lemma_expect_hit(s, o9, lit_z);
    assert(d > 0);
    let parsed = parse_memo_at(s, i, d);
    assert(parsed matches Some(t) && t.0 =~= v && t.1 == oend);
}

/// Reading a serialized same-ecosystem hop back gives the hop: only
/// the routing extension is present.
#[verifier::rlimit(100)]
proof fn lemma_parse_ser_ecosystem(v: MemoV, s: Seq<char>, i: int, d: nat)
    requires
        wf_memo(v),
        v.port is None,
        v.channel is None,
        v.timeout is None,
        v.retries is None,
        v.substrate is Some,
        0 <= i,
        i + memo_ser(v).len() <= s.len(),
        s.subrange(i, i + memo_ser(v).len() as int) == memo_ser(v),
        d >= memo_ser(v).len(),
    ensures
        parse_memo_at(s, i, d) == Some((v, i + memo_ser(v).len() as int)),
    decreases v, 0int,
{
    reveal_strlit("{\"receiver\":\"");
    reveal_strlit("\"");
    reveal_strlit(",\"port\":\"");
    reveal_strlit(",\"channel\":\"");
    reveal_strlit(",\"timeout\":\"");
    reveal_strlit(",\"retries\":");
    reveal_strlit(",\"substrate\":");
    reveal_strlit("{\"para_id\":");
    reveal_strlit("{}");
    reveal_strlit(",\"next\":");
    reveal_strlit("}");
    let e = memo_ser(v);
    let lit_l = "{\"receiver\":\""@;
    let lit_q = "\""@;
    let lit_p = ",\"port\":\""@;
    let lit_c = ",\"channel\":\""@;
    let lit_t = ",\"timeout\":\""@;
    let lit_r = ",\"retries\":"@;
    let lit_s = ",\"substrate\":"@;
    let lit_pi = "{\"para_id\":"@;
    let lit_se = "{}"@;
    let lit_n = ",\"next\":"@;
    let lit_z = "}"@;
    let pid = v.substrate->Some_0;
    let rv = esc_text(v.receiver);
    let sp = lit_s + sub_ser(pid);
    let np = match v.next {
        Some(b) => lit_n + memo_ser(*b),
        None => Seq::<char>::empty(),
    };
    assert(e == lit_l + rv + lit_q + Seq::<char>::empty() + Seq::<char>::empty()
        + Seq::<char>::empty() + Seq::<char>::empty() + sp + np + lit_z);
    assert(lit_l.len() == 13 && lit_q.len() == 1 && lit_z.len() == 1);
    assert(lit_p.len() == 9 && lit_c.len() == 12 && lit_t.len() == 12 && lit_r.len() == 11);
    assert(lit_s.len() == 13 && lit_pi.len() == 11 && lit_se.len() == 2 && lit_n.len() == 8);
    let o1 = i + 13;
    let o2 = o1 + rv.len() as int;
    let o3 = o2 + 1;
    let o7 = o3;
    let o8 = o7 + sp.len() as int;
    let o9 = o8 + np.len() as int;
    let oend = o9 + 1;
    assert(e.len() == 15 + rv.len() + sp.len() + np.len());
    assert(oend == i + e.len());
    assert forall|k: int| 0 <= k < e.len() implies s[i + k] == e[k] by {
        assert(s.subrange(i, i + e.len() as int)[k] == s[i + k]);
    }
    let a1 = lit_l + rv;
    let a2 = a1 + lit_q;
    let a3 = a2 + Seq::<char>::empty();
    let a4 = a3 + Seq::<char>::empty();
    let a5 = a4 + Seq::<char>::empty();
    let a6 = a5 + Seq::<char>::empty();
    let a7 = a6 + sp;
    let a8 = a7 + np;
    assert(e == a8 + lit_z);
    assert forall|k: int| 0 <= k < a8.len() implies e[k] == a8[k] by {}
    assert forall|k: int| 0 <= k < a7.len() implies e[k] == a7[k] by {
        assert(a8[k] == a7[k]);
    }
    assert forall|k: int| 0 <= k < a6.len() implies e[k] == a6[k] by {
        assert(a7[k] == a6[k]);
    }
    assert forall|k: int| 0 <= k < a2.len() implies e[k] == a2[k] by {
        assert(a6[k] == a5[k]);
        assert(a5[k] == a4[k]);
        assert(a4[k] == a3[k]);
        assert(a3[k] == a2[k]);
        assert(a6[k] == a2[k]);
    }
    assert forall|k: int| 0 <= k < a1.len() implies e[k] == a1[k] by {
        assert(a2[k] == a1[k]);
    }
    assert forall|t: int| 0 <= t < 13 implies e[t] == lit_l[t] by {
        assert(a1[t] == lit_l[t]);
    }
    assert forall|t: int| 0 <= t < rv.len() implies e[13 + t] == rv[t] by {
        assert(a1[13 + t] == rv[t]);
    }
    assert(e[o2 - i] == lit_q[0]) by {
        assert(a2[a1.len() as int] == lit_q[0]);
    }
    assert(o7 - i == a6.len());
    assert forall|t: int| 0 <= t < sp.len() implies e[(o7 - i) + t] == sp[t] by {
        assert(a7[a6.len() + t] == sp[t]);
    }
    assert(o8 - i == a7.len());
    assert forall|t: int| 0 <= t < np.len() implies e[(o8 - i) + t] == np[t] by {
        assert(a8[a7.len() + t] == np[t]);
    }
    assert(o9 - i == a8.len());
    assert(e[o9 - i] == lit_z[0]);
    assert(s[o2] == lit_q[0]) by {
        assert(s[i + (o2 - i)] == e[o2 - i]);
    }
    assert(s[o9] == lit_z[0]) by {
        assert(s[i + (o9 - i)] == e[o9 - i]);
    }
    lemma_region(s, i, e, 0, lit_l);
    lemma_expect_hit(s, i, lit_l);
    lemma_region(s, i, e, 13, rv);
    assert(s.subrange(o1, o2) == rv);
    assert(o2 < s.len());
    lemma_parse_esc(v.receiver, s, o1);
    assert(parse_text_at(s, o1) == Some((v.receiver, o3)));
    // All four absent fields: the text here starts with the
    // extension key, whose third character distinguishes it.
    assert(sp[0] == lit_s[0] && sp[2] == lit_s[2]) by {
        assert(sp[0] == lit_s[0]);
        assert(sp[2] == lit_s[2]);
    }
    assert(s[o3 + 2] == lit_s[2]) by {
        let k = (o7 - i) + 2;
        assert(s[i + k] == e[k]);
    }
    lemma_expect_miss(s, o3, lit_p, 2);
    assert(parse_opt_text(s, o3, lit_p) == Some((None::<Seq<char>>, o3)));
    lemma_expect_miss(s, o3, lit_c, 2);
    assert(parse_opt_text(s, o3, lit_c) == Some((None::<Seq<char>>, o3)));
    lemma_expect_miss(s, o3, lit_t, 2);
    assert(parse_opt_text(s, o3, lit_t) == Some((None::<Seq<char>>, o3)));
    lemma_expect_miss(s, o3, lit_r, 2);
    assert(parse_opt_retries(s, o3) == Some((None::<u8>, o3)));
    // The extension itself.
    assert forall|t: int| 0 <= t < 13 implies e[(o7 - i) + t] == lit_s[t] by {
        assert(sp[t] == lit_s[t]);
    }
    assert forall|t: int| 0 <= t < sub_ser(pid).len() implies e[(o7 - i) + 13 + t] == sub_ser(
        pid,
    )[t] by {
        assert(sp[13 + t] == sub_ser(pid)[t]);
    }
    lemma_region(s, i, e, o7 - i, lit_s);
    lemma_expect_hit(s, o7, lit_s);
    let b = o7 + 13;
    match pid {
        Some(n) => {
            lemma_dec_roundtrip(n as nat);
            let ss = sub_ser(pid);
            assert(ss == lit_pi + dec_of(n as nat) + lit_z);
            assert forall|t: int| 0 <= t < 11 implies e[(b - i) + t] == lit_pi[t] by {
                assert(ss[t] == (lit_pi + dec_of(n as nat))[t]);
                assert((lit_pi + dec_of(n as nat))[t] == lit_pi[t]);
                assert(e[(o7 - i) + 13 + t] == ss[t]);
            }
            assert forall|t: int| 0 <= t < dec_of(n as nat).len() implies e[(b - i) + 11 + t]
                == dec_of(n as nat)[t] by {
                assert(ss[11 + t] == (lit_pi + dec_of(n as nat))[11 + t]);
                assert((lit_pi + dec_of(n as nat))[11 + t] == dec_of(n as nat)[t]);
                assert(e[(o7 - i) + 13 + 11 + t] == ss[11 + t]);
            }
            lemma_region(s, i, e, b - i, lit_pi);
            lemma_expect_hit(s, b, lit_pi);
            assert(s[b + 1] == lit_pi[1]) by {
                let k = (b - i) + 1;
                assert(s[i + k] == e[k]);
            }
            lemma_expect_miss(s, b, lit_se, 1);
            lemma_region(s, i, e, b - i + 11, dec_of(n as nat));
            assert(s[o8 - 1] == lit_z[0]) by {
                let k = (o8 - i) - 1;
                assert(s[i + k] == e[k]);
                assert(ss[ss.len() - 1] == lit_z[0]);
                assert(e[(o7 - i) + 13 + (ss.len() - 1)] == ss[ss.len() - 1]);
            }
            assert(!is_digit(s[o8 - 1]));
            lemma_num_hit(s, b + 11, n as nat, u32::MAX as nat);
            lemma_region(s, i, e, o8 - i - 1, lit_z);
            lemma_expect_hit(s, o8 - 1, lit_z);
            assert(parse_opt_sub(s, o7) == Some((Some(Some(n)), o8)));
        },
        None => {
            let ss = sub_ser(pid);
            assert(ss == lit_se);
            assert forall|t: int| 0 <= t < 2 implies e[(b - i) + t] == lit_se[t] by {
                assert(e[(o7 - i) + 13 + t] == ss[t]);
            }
            lemma_region(s, i, e, b - i, lit_se);
            lemma_expect_hit(s, b, lit_se);
            assert(parse_opt_sub(s, o7) == Some((Some(None::<u32>), o8)));
        },
    }
    // next
    match v.next {
        Some(bx) => {
            assert(np == lit_n + memo_ser(*bx));
            assert forall|t: int| 0 <= t < 8 implies e[(o8 - i) + t] == lit_n[t] by {
                assert(np[t] == lit_n[t]);
            }
            assert forall|t: int| 0 <= t < memo_ser(*bx).len() implies e[(o8 - i) + 8 + t]
                == memo_ser(*bx)[t] by {
                assert(np[8 + t] == memo_ser(*bx)[t]);
            }
            lemma_region(s, i, e, o8 - i, lit_n);
            lemma_expect_hit(s, o8, lit_n);
            lemma_region(s, i, e, o8 - i + 8, memo_ser(*bx));
            lemma_parse_ser(*bx, s, o8 + 8, (d - 1) as nat);
            assert(parse_memo_at(s, o8 + 8, (d - 1) as nat) == Some((*bx, o9)));
        },
        None => {
            assert(s[o8] == lit_z[0]);
            lemma_expect_miss(s, o8, lit_n, 0);
        },
    }
    lemma_region(s, i, e, o9 - i, lit_z);
    lemma_expect_hit(s, o9, lit_z);
    assert(d > 0);
    let parsed = parse_memo_at(s, i, d);
    assert(parsed matches Some(t) && t.0 =~= v && t.1 == oend);
}

/// Reading a serialized memo back out of any carrier text gives the
/// memo: the induction behind the round-trip law.
proof fn lemma_parse_ser(v: MemoV, s: Seq<char>, i: int, d: nat)
    requires
        wf_memo(v),
        0 <= i,
        i + memo_ser(v).len() <= s.len(),
        s.subrange(i, i + memo_ser(v).len() as int) == memo_ser(v),
        d >= memo_ser(v).len(),
    ensures
        parse_memo_at(s, i, d) == Some((v, i + memo_ser(v).len() as int)),
    decreases v, 1int,
{
    if v.port is Some {
        lemma_parse_ser_bridge(v, s, i, d);
    } else {
        lemma_parse_ser_ecosystem(v, s, i, d);
    }
}

/// The round-trip law for the memo wire format: for every tree the
/// builders construct (each node a bridging hop or a same-ecosystem
/// hop, its text fields arbitrary), reading the serialized form back
/// gives a structurally equal tree, and re-serializing it gives the
/// same bytes.
pub proof fn lemma_memo_roundtrip(v: MemoV)
    requires
        wf_memo(v),
    ensures
        parse_memo_at(memo_ser(v), 0, memo_ser(v).len()) == Some(
            (v, memo_ser(v).len() as int),
        ),
{
    let s = memo_ser(v);
    assert(s.subrange(0, s.len() as int) =~= s);
    lemma_parse_ser(v, s, 0, s.len());
}

} // verus!
