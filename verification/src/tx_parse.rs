//! Parsing of the transmit line in HEX and binary mode.
//!
//! The input is split into whitespace-separated tokens. In HEX mode a token
//! of one byte is read as one hex digit, a token of two bytes as one byte
//! (with `u8::from_str_radix` rules, so a leading `+` is accepted), a longer
//! token of even byte length as a run of two-byte chunks (refused as a whole
//! when a chunk would split a character); a token of odd byte length is
//! refused. In binary mode every token must be exactly eight `0`/`1`
//! characters. The first refused token ends the parse with its message.
use vstd::prelude::*;
use vstd::utf8::*;
use crate::render::{hex2, hex_char, hex_view, bin8, bin_view, pow2};
use crate::text::{all_ws, is_blank, char_utf8_width, char_width, chars_of, is_whitespace_char, is_ws, lemma_utf8_len_ge, lemma_utf8_len_push, push_chars, utf8_len, utf8_len_capped};

verus! {

broadcast use vstd::seq_lib::group_seq_properties;

/// What one token contributes.
pub enum TokenOutcome {
    Bytes(Seq<u8>),
    Rejected(Seq<char>),
}

/// What a whole parse yields.
pub enum ParseOutcome {
    Parsed(Seq<u8>),
    Rejected(Seq<char>),
}

/// Completed tokens and the token under construction after reading `s`.
pub open spec fn scan_tokens(s: Seq<char>) -> (Seq<Seq<char>>, Seq<char>)
    decreases s.len(),
{
    if s.len() == 0 {
        (seq![], seq![])
    } else {
        let prev = scan_tokens(s.drop_last());
        let c = s.last();
        if is_ws(c) {
            if prev.1.len() > 0 {
                (prev.0.push(prev.1), seq![])
            } else {
                (prev.0, seq![])
            }
        } else {
            (prev.0, prev.1.push(c))
        }
    }
}

/// The maximal runs of non-whitespace characters of `s`, in order
/// (what `str::split_whitespace` yields).
pub open spec fn tokens(s: Seq<char>) -> Seq<Seq<char>> {
    let st = scan_tokens(s);
    if st.1.len() > 0 {
        st.0.push(st.1)
    } else {
        st.0
    }
}

/// Value of a hexadecimal digit (either case).
pub open spec fn hex_digit_value(c: char) -> Option<u8> {
    if '0' <= c && c <= '9' {
        Some((c as u32 - '0' as u32) as u8)
    } else if 'a' <= c && c <= 'f' {
        Some((c as u32 - 'a' as u32 + 10) as u8)
    } else if 'A' <= c && c <= 'F' {
        Some((c as u32 - 'A' as u32 + 10) as u8)
    } else {
        None
    }
}

/// `u8::from_str_radix(s, 16)` on a two-character ASCII string `[a, b]`:
/// a leading `+` is dropped, otherwise both characters must be hex digits.
pub open spec fn radix16_pair(a: char, b: char) -> Option<u8> {
    if a == '+' {
        hex_digit_value(b)
    } else {
        match (hex_digit_value(a), hex_digit_value(b)) {
            (Some(x), Some(y)) => Some((x * 16 + y) as u8),
            _ => None,
        }
    }
}

pub open spec fn is_ascii_char(c: char) -> bool {
    (c as u32) < 0x80
}

pub open spec fn quoted(prefix: Seq<char>, t: Seq<char>, suffix: Seq<char>) -> Seq<char> {
    prefix + t + suffix
}

pub open spec fn msg_hex_token(t: Seq<char>) -> Seq<char> {
    quoted("Invalid HEX token: '"@, t, "'"@)
}

pub open spec fn msg_hex_chunk(t: Seq<char>) -> Seq<char> {
    quoted("Invalid HEX chunk: '"@, t, "'"@)
}

pub open spec fn msg_hex_odd(t: Seq<char>) -> Seq<char> {
    quoted("HEX token '"@, t, "' has invalid odd length"@)
}

pub open spec fn msg_bin_len(t: Seq<char>) -> Seq<char> {
    quoted("Binary token '"@, t, "' must be exactly 8 bits"@)
}

pub open spec fn msg_bin_digits(t: Seq<char>) -> Seq<char> {
    quoted("Binary token '"@, t, "' must contain only 0 and 1"@)
}

/// The two-byte chunks of a token of even byte length, from character `j` on.
/// An ASCII pair is one chunk; a two-byte character is a chunk of its own
/// (never a digit); a chunk that would split a character (an ASCII character
/// followed by a wider one, or a three- or four-byte character) makes the
/// whole token invalid.
pub open spec fn hex_chunks(t: Seq<char>, j: int) -> TokenOutcome
    decreases t.len() - j,
{
    if j < 0 || j >= t.len() {
        TokenOutcome::Bytes(seq![])
    } else {
        let c = t[j];
        if is_ascii_char(c) {
            if j + 1 < t.len() && is_ascii_char(t[j + 1]) {
                match radix16_pair(c, t[j + 1]) {
                    Some(v) => match hex_chunks(t, j + 2) {
                        TokenOutcome::Bytes(rest) => TokenOutcome::Bytes(seq![v] + rest),
                        other => other,
                    },
                    None => TokenOutcome::Rejected(msg_hex_chunk(seq![c, t[j + 1]])),
                }
            } else {
                TokenOutcome::Rejected(msg_hex_token(t))
            }
        } else if char_width(c) == 2 {
            TokenOutcome::Rejected(msg_hex_chunk(seq![c]))
        } else {
            TokenOutcome::Rejected(msg_hex_token(t))
        }
    }
}

/// What one HEX token contributes, by its byte length.
pub open spec fn hex_token(t: Seq<char>) -> TokenOutcome {
    let n = utf8_len(t);
    if n == 1 {
        match radix16_pair('0', t[0]) {
            Some(v) => TokenOutcome::Bytes(seq![v]),
            None => TokenOutcome::Rejected(msg_hex_token(t)),
        }
    } else if n == 2 {
        if t.len() == 2 {
            match radix16_pair(t[0], t[1]) {
                Some(v) => TokenOutcome::Bytes(seq![v]),
                None => TokenOutcome::Rejected(msg_hex_token(t)),
            }
        } else {
            TokenOutcome::Rejected(msg_hex_token(t))
        }
    } else if n % 2 == 0 {
        hex_chunks(t, 0)
    } else {
        TokenOutcome::Rejected(msg_hex_odd(t))
    }
}

/// Value of eight binary digits, most significant first.
pub open spec fn bits_value(t: Seq<char>) -> nat
    decreases t.len(),
{
    if t.len() == 0 {
        0
    } else {
        bits_value(t.drop_last()) * 2 + (if t.last() == '1' {
            1nat
        } else {
            0nat
        })
    }
}

pub open spec fn all_bits(t: Seq<char>) -> bool {
    forall|i: int| 0 <= i < t.len() ==> (#[trigger] t[i] == '0' || t[i] == '1')
}

/// What one binary token contributes.
pub open spec fn bin_token(t: Seq<char>) -> TokenOutcome {
    if utf8_len(t) != 8 {
        TokenOutcome::Rejected(msg_bin_len(t))
    } else if !all_bits(t) {
        TokenOutcome::Rejected(msg_bin_digits(t))
    } else {
        TokenOutcome::Bytes(seq![bits_value(t) as u8])
    }
}

/// Tokens are converted in order; the first one that is not converted
/// decides the outcome, otherwise the bytes are concatenated.
pub open spec fn fold_tokens(ts: Seq<Seq<char>>, hex: bool) -> ParseOutcome
    decreases ts.len(),
{
    if ts.len() == 0 {
        ParseOutcome::Parsed(seq![])
    } else {
        match fold_tokens(ts.drop_last(), hex) {
            ParseOutcome::Parsed(b) => match (if hex {
                hex_token(ts.last())
            } else {
                bin_token(ts.last())
            }) {
                TokenOutcome::Bytes(x) => ParseOutcome::Parsed(b + x),
                TokenOutcome::Rejected(m) => ParseOutcome::Rejected(m),
            },
            other => other,
        }
    }
}

/// The outcome of parsing a HEX transmit line.
pub open spec fn spec_parse_hex(s: Seq<char>) -> ParseOutcome {
    fold_tokens(tokens(s), true)
}

/// The outcome of parsing a binary transmit line.
pub open spec fn spec_parse_binary(s: Seq<char>) -> ParseOutcome {
    fold_tokens(tokens(s), false)
}

/// The executable counterpart of `ParseOutcome`.
pub enum TxParse {
    Parsed(Vec<u8>),
    Rejected(String),
}

pub open spec fn token_matches(r: TxParse, o: TokenOutcome) -> bool {
    match (r, o) {
        (TxParse::Parsed(v), TokenOutcome::Bytes(b)) => v@ == b,
        (TxParse::Rejected(m), TokenOutcome::Rejected(e)) => m@ == e,
        _ => false,
    }
}

pub open spec fn parse_matches(r: TxParse, o: ParseOutcome) -> bool {
    match (r, o) {
        (TxParse::Parsed(v), ParseOutcome::Parsed(b)) => v@ == b,
        (TxParse::Rejected(m), ParseOutcome::Rejected(e)) => m@ == e,
        _ => false,
    }
}

// ---------------------------------------------------------------------------
// Lemmas about tokens and the fold.
// ---------------------------------------------------------------------------

pub open spec fn is_prefix(p: Seq<Seq<char>>, q: Seq<Seq<char>>) -> bool {
    p.len() <= q.len() && q.take(p.len() as int) =~= p
}

proof fn lemma_scan_prefix(s: Seq<char>, i: int, k: int)
    requires
        0 <= i <= k <= s.len(),
    ensures
        is_prefix(scan_tokens(s.take(i)).0, scan_tokens(s.take(k)).0),
    decreases k - i,
{
    if i < k {
        lemma_scan_prefix(s, i, k - 1);
        assert(s.take(k).drop_last() =~= s.take(k - 1));
        let a = scan_tokens(s.take(i)).0;
        let b = scan_tokens(s.take(k - 1)).0;
        let c = scan_tokens(s.take(k)).0;
        assert(c == b || c == b.push(scan_tokens(s.take(k - 1)).1));
        if c != b {
            assert(c.take(a.len() as int) =~= b.take(a.len() as int));
        }
    }
}

/// The tokens completed after reading a prefix are the first tokens of the whole.
pub proof fn lemma_scan_prefix_of_tokens(s: Seq<char>, i: int)
    requires
        0 <= i <= s.len(),
    ensures
        is_prefix(scan_tokens(s.take(i)).0, tokens(s)),
{
    lemma_scan_prefix(s, i, s.len() as int);
    assert(s.take(s.len() as int) =~= s);
    let a = scan_tokens(s.take(i)).0;
    let b = scan_tokens(s).0;
    if scan_tokens(s).1.len() > 0 {
        assert(tokens(s).take(a.len() as int) =~= b.take(a.len() as int));
    }
}

/// Once the fold stops, later tokens do not change its outcome.
pub proof fn lemma_fold_stops(p: Seq<Seq<char>>, q: Seq<Seq<char>>, hex: bool)
    requires
        !(fold_tokens(p, hex) is Parsed),
        is_prefix(p, q),
    ensures
        fold_tokens(q, hex) == fold_tokens(p, hex),
    decreases q.len(),
{
    if q.len() > p.len() {
        assert(q.drop_last().take(p.len() as int) =~= p);
        lemma_fold_stops(p, q.drop_last(), hex);
    } else {
        assert(q =~= p);
    }
}

/// Every converted token contributes at least one byte.
proof fn lemma_chunks_nonempty(t: Seq<char>, j: int)
    requires
        0 <= j < t.len(),
    ensures
        hex_chunks(t, j) matches TokenOutcome::Bytes(b) ==> b.len() > 0,
{
}

/// A parse with no bytes saw no token at all.
pub proof fn lemma_fold_empty(ts: Seq<Seq<char>>, hex: bool)
    requires
        forall|i: int| 0 <= i < ts.len() ==> (#[trigger] ts[i]).len() > 0,
        fold_tokens(ts, hex) matches ParseOutcome::Parsed(b) && b.len() == 0,
    ensures
        ts.len() == 0,
    decreases ts.len(),
{
    if ts.len() > 0 {
        let t = ts.last();
        assert(t.len() > 0);
        lemma_utf8_len_ge(t);
        if hex && utf8_len(t) > 2 && utf8_len(t) % 2 == 0 {
            lemma_chunks_nonempty(t, 0);
        }
    }
}

proof fn lemma_scan_tokens_nonempty(s: Seq<char>)
    ensures
        forall|i: int|
            0 <= i < scan_tokens(s).0.len() ==> (#[trigger] scan_tokens(s).0[i]).len() > 0,
    decreases s.len(),
{
    if s.len() > 0 {
        let p = s.drop_last();
        lemma_scan_tokens_nonempty(p);
        let prev = scan_tokens(p);
        let now = scan_tokens(s);
        assert forall|i: int| 0 <= i < now.0.len() implies (#[trigger] now.0[i]).len() > 0 by {
            if i < prev.0.len() {
                assert(now.0[i] == prev.0[i]);
            } else {
                assert(now.0[i] == prev.1);
            }
        }
    }
}

/// Tokens are never empty, and there are none exactly when the input is blank.
pub proof fn lemma_tokens_basic(s: Seq<char>)
    ensures
        forall|i: int| 0 <= i < tokens(s).len() ==> (#[trigger] tokens(s)[i]).len() > 0,
        tokens(s).len() == 0 <==> all_ws(s),
    decreases s.len(),
{
    lemma_scan_tokens_nonempty(s);
    lemma_scan_blank(s);
}

proof fn lemma_scan_blank(s: Seq<char>)
    ensures
        (scan_tokens(s).0.len() == 0 && scan_tokens(s).1.len() == 0) <==> all_ws(s),
        scan_tokens(s).1.len() > 0 ==> !all_ws(s),
    decreases s.len(),
{
    if s.len() > 0 {
        let p = s.drop_last();
        lemma_scan_blank(p);
        if all_ws(s) {
            assert forall|i: int| 0 <= i < p.len() implies is_ws(#[trigger] p[i]) by {
                assert(p[i] == s[i]);
            }
            assert(is_ws(s[s.len() - 1]));
        }
        if all_ws(p) && is_ws(s.last()) {
            assert forall|i: int| 0 <= i < s.len() implies is_ws(#[trigger] s[i]) by {
                if i < p.len() {
                    assert(p[i] == s[i]);
                }
            }
        }
        if scan_tokens(s).0.len() > 0 {
            // A completed token stays completed.
            if scan_tokens(p).0.len() == 0 {
                assert(scan_tokens(p).1.len() > 0);
            }
        }
        if !all_ws(p) {
            let k = choose|i: int| 0 <= i < p.len() && !is_ws(#[trigger] p[i]);
            assert(s[k] == p[k]);
        }
    } else {
    }
}

// ---------------------------------------------------------------------------
// Executable conversion.
// ---------------------------------------------------------------------------

fn hex_digit(c: char) -> (r: Option<u8>)
    ensures
        r == hex_digit_value(c),
{
    if '0' <= c && c <= '9' {
        Some((c as u32 - '0' as u32) as u8)
    } else if 'a' <= c && c <= 'f' {
        Some((c as u32 - 'a' as u32 + 10) as u8)
    } else if 'A' <= c && c <= 'F' {
        Some((c as u32 - 'A' as u32 + 10) as u8)
    } else {
        None
    }
}

fn radix16(a: char, b: char) -> (r: Option<u8>)
    ensures
        r == radix16_pair(a, b),
{
    if a == '+' {
        hex_digit(b)
    } else {
        match (hex_digit(a), hex_digit(b)) {
            (Some(x), Some(y)) => Some(x * 16 + y),
            _ => None,
        }
    }
}

fn message(prefix: &str, t: &Vec<char>, suffix: &str) -> (m: String)
    ensures
        m@ == quoted(prefix@, t@, suffix@),
{
    let mut m = String::from_str(prefix);
    push_chars(&mut m, t);
    m.append(suffix);
    m
}

fn hex_chunks_exec(t: &Vec<char>) -> (r: TxParse)
    ensures
        token_matches(r, hex_chunks(t@, 0)),
{
    let mut out: Vec<u8> = Vec::new();
    let mut j: usize = 0;
    while j < t.len()
        invariant
            0 <= j <= t.len(),
            match hex_chunks(t@, j as int) {
                TokenOutcome::Bytes(r) => hex_chunks(t@, 0) == TokenOutcome::Bytes(out@ + r),
                o => hex_chunks(t@, 0) == o,
            },
        decreases t.len() - j,
    {
        let c = t[j];
        if (c as u32) < 0x80 {
            if j + 1 < t.len() && (t[j + 1] as u32) < 0x80 {
                match radix16(c, t[j + 1]) {
                    Some(v) => {
                        proof {
                            let jj = j as int;
                            match hex_chunks(t@, jj + 2) {
                                TokenOutcome::Bytes(r) => {
                                    assert(hex_chunks(t@, jj) == TokenOutcome::Bytes(seq![v] + r));
                                    assert(out@ + (seq![v] + r) =~= out@.push(v) + r);
                                },
                                _ => {},
                            }
                        }
                        out.push(v);
                        j = j + 2;
                    },
                    None => {
                        let pair = vec![c, t[j + 1]];
                        assert(pair@ =~= seq![c, t@[j + 1]]);
                        return TxParse::Rejected(message("Invalid HEX chunk: '", &pair, "'"));
                    },
                }
            } else {
                return TxParse::Rejected(message("Invalid HEX token: '", t, "'"));
            }
        } else if char_utf8_width(c) == 2 {
            let single = vec![c];
            assert(single@ =~= seq![c]);
            return TxParse::Rejected(message("Invalid HEX chunk: '", &single, "'"));
        } else {
            return TxParse::Rejected(message("Invalid HEX token: '", t, "'"));
        }
    }
    assert(hex_chunks(t@, j as int) == TokenOutcome::Bytes(seq![]));
    assert(out@ + seq![] =~= out@);
    TxParse::Parsed(out)
}

fn hex_token_exec(t: &Vec<char>) -> (r: TxParse)
    requires
        t.len() > 0,
    ensures
        token_matches(r, hex_token(t@)),
{
    let (n, odd) = utf8_len_capped(t, 3);
    proof {
        lemma_utf8_len_ge(t@);
    }
    if n == 1 {
        match radix16('0', t[0]) {
            Some(v) => {
                let out = vec![v];
                assert(out@ =~= seq![v]);
                TxParse::Parsed(out)
            },
            None => TxParse::Rejected(message("Invalid HEX token: '", t, "'")),
        }
    } else if n == 2 {
        if t.len() == 2 {
            match radix16(t[0], t[1]) {
                Some(v) => {
                    let out = vec![v];
                    assert(out@ =~= seq![v]);
                    TxParse::Parsed(out)
                },
                None => TxParse::Rejected(message("Invalid HEX token: '", t, "'")),
            }
        } else {
            TxParse::Rejected(message("Invalid HEX token: '", t, "'"))
        }
    } else if !odd {
        hex_chunks_exec(t)
    } else {
        TxParse::Rejected(message("HEX token '", t, "' has invalid odd length"))
    }
}

fn bin_token_exec(t: &Vec<char>) -> (r: TxParse)
    requires
        t.len() > 0,
    ensures
        token_matches(r, bin_token(t@)),
{
    let (n, _odd) = utf8_len_capped(t, 9);
    if n != 8 {
        return TxParse::Rejected(message("Binary token '", t, "' must be exactly 8 bits"));
    }
    proof {
        lemma_utf8_len_ge(t@);
    }
    let mut i: usize = 0;
    while i < t.len()
        invariant
            0 <= i <= t.len(),
            utf8_len(t@) == 8,
            forall|k: int| 0 <= k < i ==> (#[trigger] t@[k] == '0' || t@[k] == '1'),
        decreases t.len() - i,
    {
        if t[i] != '0' && t[i] != '1' {
            assert(!all_bits(t@)) by {
                assert(!(t@[i as int] == '0' || t@[i as int] == '1'));
            }
            return TxParse::Rejected(message("Binary token '", t, "' must contain only 0 and 1"));
        }
        i = i + 1;
    }
    assert(all_bits(t@));
    // Every character is a bit, so the token is eight ASCII characters.
    assert(t.len() == 8) by {
        assert forall|k: int| 0 <= k < t@.len() implies char_width(#[trigger] t@[k]) == 1 by {
            assert(t@[k] == '0' || t@[k] == '1');
        }
        lemma_utf8_len_all_narrow(t@);
    }
    let v = bits_to_byte(t);
    let out = vec![v];
    assert(out@ =~= seq![bits_value(t@) as u8]);
    TxParse::Parsed(out)
}

fn bits_to_byte(t: &Vec<char>) -> (v: u8)
    requires
        t.len() == 8,
        all_bits(t@),
    ensures
        v == bits_value(t@) as u8,
{
    let mut v: u8 = 0;
    let mut k: usize = 0;
    assert(t@.take(0) =~= Seq::<char>::empty());
    while k < 8
        invariant
            0 <= k <= 8,
            t.len() == 8,
            all_bits(t@),
            v as nat == bits_value(t@.take(k as int)),
            (v as nat) < pow2_nat(k as nat),
        decreases 8 - k,
    {
        proof {
            assert(t@.take(k + 1).drop_last() =~= t@.take(k as int));
            assert(t@.take(k + 1).last() == t@[k as int]);
            lemma_pow2_step(k as nat);
        }
        let bit: u8 = if t[k] == '1' {
            1
        } else {
            0
        };
        v = v * 2 + bit;
        k = k + 1;
    }
    assert(t@.take(8) =~= t@);
    v
}

pub open spec fn pow2_nat(k: nat) -> nat
    decreases k,
{
    if k == 0 {
        1
    } else {
        2 * pow2_nat((k - 1) as nat)
    }
}

proof fn lemma_pow2_step(k: nat)
    requires
        k < 8,
    ensures
        pow2_nat(k + 1) == 2 * pow2_nat(k),
        pow2_nat(k + 1) <= 256,
    decreases k,
{
    reveal_with_fuel(pow2_nat, 9);
}

proof fn lemma_utf8_len_all_narrow(s: Seq<char>)
    requires
        forall|k: int| 0 <= k < s.len() ==> char_width(#[trigger] s[k]) == 1,
    ensures
        utf8_len(s) == s.len(),
    decreases s.len(),
{
    if s.len() > 0 {
        let p = s.drop_last();
        assert forall|k: int| 0 <= k < p.len() implies char_width(#[trigger] p[k]) == 1 by {
            assert(p[k] == s[k]);
        }
        lemma_utf8_len_all_narrow(p);
        assert(p.push(s.last()) =~= s);
        lemma_utf8_len_push(p, s.last());
    } else {
        assert(encode_utf8(s) =~= Seq::<u8>::empty());
    }
}

/// Splits into tokens and converts them in order, stopping at the first
/// token that is refused or would abort.
fn parse_tokens(input: &str, hex: bool) -> (r: TxParse)
    ensures
        parse_matches(r, fold_tokens(tokens(input@), hex)),
{
    let cs = chars_of(input);
    let ghost s = cs@;
    let mut bytes: Vec<u8> = Vec::new();
    let mut cur: Vec<char> = Vec::new();
    let ghost mut done: Seq<Seq<char>> = seq![];
    let mut i: usize = 0;
    proof {
        assert(s.take(0) =~= Seq::<char>::empty());
    }
    while i < cs.len()
        invariant
            0 <= i <= cs.len(),
            s == cs@,
            s == input@,
            scan_tokens(s.take(i as int)) == (done, cur@),
            cur.len() <= i,
            fold_tokens(done, hex) == ParseOutcome::Parsed(bytes@),
        decreases cs.len() - i,
    {
        let c = cs[i];
        proof {
            assert(s.take(i + 1).drop_last() =~= s.take(i as int));
            assert(s.take(i + 1).last() == c);
        }
        if is_whitespace_char(c) {
            if cur.len() > 0 {
                let r = if hex {
                    hex_token_exec(&cur)
                } else {
                    bin_token_exec(&cur)
                };
                let ghost next = done.push(cur@);
                proof {
                    assert(next.drop_last() =~= done);
                    lemma_scan_prefix_of_tokens(s, i + 1);
                }
                match r {
                    TxParse::Parsed(v) => {
                        let ghost old_bytes = bytes@;
                        let mut v = v;
                        bytes.append(&mut v);
                        proof {
                            done = next;
                        }
                        cur = Vec::new();
                    },
                    TxParse::Rejected(m) => {
                        proof {
                            lemma_fold_stops(next, tokens(s), hex);
                        }
                        return TxParse::Rejected(m);
                    },
                }
            } else {
                cur = Vec::new();
            }
        } else {
            cur.push(c);
        }
        i = i + 1;
    }
    assert(s.take(cs.len() as int) =~= s);
    if cur.len() > 0 {
        let r = if hex {
            hex_token_exec(&cur)
        } else {
            bin_token_exec(&cur)
        };
        let ghost all = done.push(cur@);
        assert(all.drop_last() =~= done);
        match r {
            TxParse::Parsed(v) => {
                let mut v = v;
                bytes.append(&mut v);
            },
            TxParse::Rejected(m) => {
                return TxParse::Rejected(m);
            },
        }
    }
    TxParse::Parsed(bytes)
}

} // verus!

verus! {

proof fn lemma_no_bytes_means_blank(s: Seq<char>, hex: bool)
    requires
        fold_tokens(tokens(s), hex) matches ParseOutcome::Parsed(b) && b.len() == 0,
    ensures
        all_ws(s),
{
    lemma_tokens_basic(s);
    lemma_fold_empty(tokens(s), hex);
}

/// Parses a HEX transmit line into bytes, or says which token is wrong.
pub fn parse_hex(input: &str) -> (r: Result<Vec<u8>, String>)
    ensures
        match r {
            Ok(v) => spec_parse_hex(input@) == ParseOutcome::Parsed(v@),
            Err(e) => spec_parse_hex(input@) == ParseOutcome::Rejected(e@),
        },
{
    match parse_tokens(input, true) {
        TxParse::Parsed(bytes) => {
            if bytes.len() == 0 && !is_blank(&chars_of(input)) {
                proof {
                    lemma_no_bytes_means_blank(input@, true);
                }
                return Err(String::from_str("No valid HEX content found"));
            }
            Ok(bytes)
        },
        TxParse::Rejected(m) => Err(m),
    }
}

/// Parses a binary transmit line (tokens of eight `0`/`1` characters).
pub fn parse_binary(input: &str) -> (r: Result<Vec<u8>, String>)
    ensures
        match r {
            Ok(v) => spec_parse_binary(input@) == ParseOutcome::Parsed(v@),
            Err(e) => spec_parse_binary(input@) == ParseOutcome::Rejected(e@),
        },
{
    match parse_tokens(input, false) {
        TxParse::Parsed(bytes) => {
            if bytes.len() == 0 && !is_blank(&chars_of(input)) {
                proof {
                    lemma_no_bytes_means_blank(input@, false);
                }
                return Err(String::from_str("No valid binary content found"));
            }
            Ok(bytes)
        },
        TxParse::Rejected(m) => Err(m),
    }
}

} // verus!

verus! {

proof fn lemma_hex_char_value(n: nat)
    requires
        n < 16,
    ensures
        hex_digit_value(hex_char(n)) == Some(n as u8),
        !is_ws(hex_char(n)),
        is_ascii_char(hex_char(n)),
        hex_char(n) != '+',
        char_width(hex_char(n)) == 1,
{
}

proof fn lemma_two_ascii_len(a: char, b: char)
    requires
        char_width(a) == 1,
        char_width(b) == 1,
    ensures
        utf8_len(seq![a, b]) == 2,
{
    let e = Seq::<char>::empty();
    assert(e.push(a) =~= seq![a]);
    assert(seq![a].push(b) =~= seq![a, b]);
    lemma_utf8_len_push(e, a);
    lemma_utf8_len_push(seq![a], b);
    assert(vstd::utf8::encode_utf8(e) =~= Seq::<u8>::empty());
}

/// One rendered byte reads back as that byte.
proof fn lemma_hex2_token(b: u8)
    ensures
        hex_token(hex2(b)) == TokenOutcome::Bytes(seq![b]),
{
    let hi = (b / 16) as nat;
    let lo = (b % 16) as nat;
    lemma_hex_char_value(hi);
    lemma_hex_char_value(lo);
    lemma_two_ascii_len(hex_char(hi), hex_char(lo));
    assert(hi * 16 + lo == b as nat);
}

pub open spec fn hex_tokens_of(d: Seq<u8>) -> Seq<Seq<char>> {
    d.map_values(|b: u8| hex2(b))
}

proof fn lemma_scan_hex_view(d: Seq<u8>)
    requires
        d.len() > 0,
    ensures
        scan_tokens(hex_view(d)) == (hex_tokens_of(d.drop_last()), hex2(d.last())),
    decreases d.len(),
{
    let b = d.last();
    let c1 = hex_char((b / 16) as nat);
    let c2 = hex_char((b % 16) as nat);
    lemma_hex_char_value((b / 16) as nat);
    lemma_hex_char_value((b % 16) as nat);
    let e = Seq::<Seq<char>>::empty();
    if d.len() == 1 {
        let s = seq![c1, c2];
        assert(d.last() == d[0]);
        assert(hex_view(d) == hex2(d[0]));
        assert(hex_view(d) =~= s);
        assert(s.drop_last() =~= seq![c1]);
        assert(seq![c1].drop_last() =~= Seq::<char>::empty());
        assert(scan_tokens(Seq::<char>::empty()) == (e, Seq::<char>::empty()));
        assert(Seq::<char>::empty().push(c1) =~= seq![c1]);
        assert(scan_tokens(seq![c1]) == (e, seq![c1]));
        assert(seq![c1].push(c2) =~= s);
        assert(scan_tokens(s) == (e, s));
        assert(hex_tokens_of(d.drop_last()) =~= e);
    } else {
        let p = d.drop_last();
        lemma_scan_hex_view(p);
        let x = hex_view(p);
        let done = hex_tokens_of(p.drop_last());
        let cur = hex2(p.last());
        let s0 = x.push(' ');
        let s1 = s0.push(c1);
        let s2 = s1.push(c2);
        assert(hex_view(d) =~= s2);
        assert(s2.drop_last() =~= s1);
        assert(s1.drop_last() =~= s0);
        assert(s0.drop_last() =~= x);
        assert(cur.len() > 0);
        assert(scan_tokens(s0) == (done.push(cur), Seq::<char>::empty()));
        assert(Seq::<char>::empty().push(c1) =~= seq![c1]);
        assert(scan_tokens(s1) == (done.push(cur), seq![c1]));
        assert(seq![c1].push(c2) =~= hex2(b));
        assert(scan_tokens(s2) == (done.push(cur), hex2(b)));
        assert(hex_tokens_of(d.drop_last()) =~= done.push(cur));
    }
}

proof fn lemma_fold_hex_tokens(d: Seq<u8>)
    ensures
        fold_tokens(hex_tokens_of(d), true) == ParseOutcome::Parsed(d),
    decreases d.len(),
{
    if d.len() > 0 {
        let p = d.drop_last();
        lemma_fold_hex_tokens(p);
        assert(hex_tokens_of(d).drop_last() =~= hex_tokens_of(p));
        lemma_hex2_token(d.last());
        assert(p + seq![d.last()] =~= d);
    } else {
        assert(hex_tokens_of(d) =~= Seq::<Seq<char>>::empty());
        assert(d =~= Seq::<u8>::empty());
    }
}

/// The HEX translation shown under a terminal line, typed back into the
/// transmit line in HEX mode, gives back exactly the bytes of that line.
pub proof fn lemma_hex_view_round_trip(d: Seq<u8>)
    ensures
        spec_parse_hex(hex_view(d)) == ParseOutcome::Parsed(d),
{
    if d.len() == 0 {
        assert(hex_view(d) =~= Seq::<char>::empty());
        assert(d =~= Seq::<u8>::empty());
    } else {
        lemma_scan_hex_view(d);
        let st = scan_tokens(hex_view(d));
        assert(hex_tokens_of(d) =~= hex_tokens_of(d.drop_last()).push(hex2(d.last())));
        assert(tokens(hex_view(d)) == hex_tokens_of(d));
    }
    lemma_fold_hex_tokens(d);
}

} // verus!

verus! {

/// Appending a run of non-whitespace characters extends the current token.
proof fn lemma_scan_append_word(s: Seq<char>, t: Seq<char>)
    requires
        forall|i: int| 0 <= i < t.len() ==> !is_ws(#[trigger] t[i]),
    ensures
        scan_tokens(s + t) == (scan_tokens(s).0, scan_tokens(s).1 + t),
    decreases t.len(),
{
    if t.len() == 0 {
        assert(s + t =~= s);
        assert(scan_tokens(s).1 + t =~= scan_tokens(s).1);
    } else {
        let p = t.drop_last();
        assert forall|i: int| 0 <= i < p.len() implies !is_ws(#[trigger] p[i]) by {
            assert(p[i] == t[i]);
        }
        lemma_scan_append_word(s, p);
        assert((s + t).drop_last() =~= s + p);
        assert((s + t).last() == t.last());
        assert(!is_ws(t[t.len() - 1]));
        assert((scan_tokens(s).1 + p).push(t.last()) =~= scan_tokens(s).1 + t);
    }
}

proof fn lemma_bin8_chars(b: u8)
    ensures
        forall|k: int| 0 <= k < 8 ==> (#[trigger] bin8(b)[k] == '0' || bin8(b)[k] == '1'),
        all_bits(bin8(b)),
        utf8_len(bin8(b)) == 8,
        forall|k: int| 0 <= k < 8 ==> !is_ws(#[trigger] bin8(b)[k]),
{
    assert forall|k: int| 0 <= k < bin8(b).len() implies char_width(#[trigger] bin8(b)[k]) == 1 by {
    }
    lemma_utf8_len_all_narrow(bin8(b));
}

proof fn lemma_bits_prefix(b: u8, k: nat)
    requires
        k <= 8,
    ensures
        bits_value(bin8(b).take(k as int)) == (b as nat) / pow2((8 - k) as nat),
    decreases k,
{
    reveal_with_fuel(pow2, 9);
    if k == 0 {
        assert(bin8(b).take(0) =~= Seq::<char>::empty());
        assert(pow2(8) == 256);
        assert((b as nat) / 256 == 0);
    } else {
        let j = (k - 1) as nat;
        lemma_bits_prefix(b, j);
        let t = bin8(b).take(k as int);
        assert(t.drop_last() =~= bin8(b).take(j as int));
        assert(t.last() == bin8(b)[j as int]);
        let m = pow2((7 - j) as nat);
        assert(m > 0);
        assert(pow2((8 - j) as nat) == 2 * m);
        let y = (b as nat) / m;
        vstd::arithmetic::div_mod::lemma_div_denominator(b as int, m as int, 2);
        assert((b as nat) / pow2((8 - j) as nat) == y / 2) by {
            assert(m * 2 == 2 * m);
        }
        vstd::arithmetic::div_mod::lemma_fundamental_div_mod(y as int, 2);
        assert((8 - k) as nat == (7 - j) as nat);
        let bit: nat = if t.last() == '1' {
            1
        } else {
            0
        };
        assert(bit == y % 2);
        assert(bits_value(t) == bits_value(t.drop_last()) * 2 + bit);
        assert(bits_value(t) == (y / 2) * 2 + y % 2);
        assert(bits_value(t) == y);
    }
}

proof fn lemma_bin8_token(b: u8)
    ensures
        bin_token(bin8(b)) == TokenOutcome::Bytes(seq![b]),
{
    lemma_bin8_chars(b);
    lemma_bits_prefix(b, 8);
    assert(bin8(b).take(8) =~= bin8(b));
    reveal_with_fuel(pow2, 2);
    assert(pow2(0) == 1);
    assert(bits_value(bin8(b).take(8)) == (b as nat) / pow2(0));
    assert((b as nat) / 1 == b as nat) by (nonlinear_arith);
    assert(bits_value(bin8(b)) == b as nat);
    assert((bits_value(bin8(b)) as u8) == b);
}

pub open spec fn bin_tokens_of(d: Seq<u8>) -> Seq<Seq<char>> {
    d.map_values(|b: u8| bin8(b))
}

proof fn lemma_scan_bin_view(d: Seq<u8>)
    requires
        d.len() > 0,
    ensures
        scan_tokens(bin_view(d)) == (bin_tokens_of(d.drop_last()), bin8(d.last())),
    decreases d.len(),
{
    let b = d.last();
    lemma_bin8_chars(b);
    let e = Seq::<Seq<char>>::empty();
    if d.len() == 1 {
        assert(d.last() == d[0]);
        assert(bin_view(d) == bin8(d[0]));
        lemma_scan_append_word(Seq::<char>::empty(), bin8(b));
        assert(Seq::<char>::empty() + bin8(b) =~= bin8(b));
        assert(scan_tokens(Seq::<char>::empty()) == (e, Seq::<char>::empty()));
        assert(bin_tokens_of(d.drop_last()) =~= e);
    } else {
        let p = d.drop_last();
        lemma_scan_bin_view(p);
        lemma_bin8_chars(p.last());
        let x = bin_view(p);
        let s0 = x.push(' ');
        assert(bin_view(d) =~= s0 + bin8(b));
        assert(s0.drop_last() =~= x);
        let done = bin_tokens_of(p.drop_last());
        let cur = bin8(p.last());
        assert(cur.len() > 0);
        assert(scan_tokens(s0) == (done.push(cur), Seq::<char>::empty()));
        lemma_scan_append_word(s0, bin8(b));
        assert(Seq::<char>::empty() + bin8(b) =~= bin8(b));
        assert(bin_tokens_of(d.drop_last()) =~= done.push(cur));
    }
}

proof fn lemma_fold_bin_tokens(d: Seq<u8>)
    ensures
        fold_tokens(bin_tokens_of(d), false) == ParseOutcome::Parsed(d),
    decreases d.len(),
{
    if d.len() > 0 {
        let p = d.drop_last();
        lemma_fold_bin_tokens(p);
        assert(bin_tokens_of(d).drop_last() =~= bin_tokens_of(p));
        lemma_bin8_token(d.last());
        assert(p + seq![d.last()] =~= d);
    } else {
        assert(bin_tokens_of(d) =~= Seq::<Seq<char>>::empty());
        assert(d =~= Seq::<u8>::empty());
    }
}

/// The binary translation shown under a terminal line, typed back into the
/// transmit line in binary mode, gives back exactly the bytes of that line.
pub proof fn lemma_bin_view_round_trip(d: Seq<u8>)
    ensures
        spec_parse_binary(bin_view(d)) == ParseOutcome::Parsed(d),
{
    if d.len() == 0 {
        assert(bin_view(d) =~= Seq::<char>::empty());
        assert(d =~= Seq::<u8>::empty());
    } else {
        lemma_scan_bin_view(d);
        assert(bin_tokens_of(d) =~= bin_tokens_of(d.drop_last()).push(bin8(d.last())));
        lemma_bin8_chars(d.last());
        assert(tokens(bin_view(d)) == bin_tokens_of(d));
    }
    lemma_fold_bin_tokens(d);
}

} // verus!

verus! {

/// Lower-case hexadecimal digit for `d < 16`.
pub open spec fn hex_char_lower(d: nat) -> char {
    if d < 10 {
        ((48 + d) as u32) as char
    } else {
        ((87 + d) as u32) as char
    }
}

pub open spec fn hex_digit_char(d: nat, upper: bool) -> char {
    if upper {
        hex_char(d)
    } else {
        hex_char_lower(d)
    }
}

/// The bytes written as two-digit pairs with nothing between them, in upper
/// or lower case (`format!("{:02X}")` or `format!("{:02x}")` of each byte,
/// concatenated).
pub open spec fn hex_run(d: Seq<u8>, upper: bool) -> Seq<char>
    decreases d.len(),
{
    if d.len() == 0 {
        seq![]
    } else {
        seq![
            hex_digit_char((d[0] / 16) as nat, upper),
            hex_digit_char((d[0] % 16) as nat, upper),
        ] + hex_run(d.drop_first(), upper)
    }
}

proof fn lemma_hex_digit_char(n: nat, upper: bool)
    requires
        n < 16,
    ensures
        hex_digit_value(hex_digit_char(n, upper)) == Some(n as u8),
        !is_ws(hex_digit_char(n, upper)),
        is_ascii_char(hex_digit_char(n, upper)),
        hex_digit_char(n, upper) != '+',
        char_width(hex_digit_char(n, upper)) == 1,
{
}

proof fn lemma_hex_run_shape(d: Seq<u8>, upper: bool)
    ensures
        hex_run(d, upper).len() == 2 * d.len(),
        forall|k: int|
            0 <= k < d.len() ==> hex_run(d, upper)[2 * k] == hex_digit_char(
                (d[k] / 16) as nat,
                upper,
            ) && hex_run(d, upper)[2 * k + 1] == hex_digit_char((d[k] % 16) as nat, upper),
        forall|k: int|
            0 <= k < hex_run(d, upper).len() ==> {
                let c = #[trigger] hex_run(d, upper)[k];
                &&& !is_ws(c)
                &&& is_ascii_char(c)
                &&& c != '+'
                &&& char_width(c) == 1
            },
    decreases d.len(),
{
    if d.len() > 0 {
        let r = hex_run(d, upper);
        let rest = d.drop_first();
        lemma_hex_run_shape(rest, upper);
        let hi = hex_digit_char((d[0] / 16) as nat, upper);
        let lo = hex_digit_char((d[0] % 16) as nat, upper);
        lemma_hex_digit_char((d[0] / 16) as nat, upper);
        lemma_hex_digit_char((d[0] % 16) as nat, upper);
        assert(r == seq![hi, lo] + hex_run(rest, upper));
        assert forall|k: int| 0 <= k < d.len() implies r[2 * k] == hex_digit_char(
            (d[k] / 16) as nat,
            upper,
        ) && r[2 * k + 1] == hex_digit_char((d[k] % 16) as nat, upper) by {
            if k > 0 {
                assert(d[k] == rest[k - 1]);
                assert(r[2 * k] == hex_run(rest, upper)[2 * (k - 1)]);
                assert(r[2 * k + 1] == hex_run(rest, upper)[2 * (k - 1) + 1]);
            }
        }
        assert forall|k: int| 0 <= k < r.len() implies {
            let c = #[trigger] r[k];
            &&& !is_ws(c)
            &&& is_ascii_char(c)
            &&& c != '+'
            &&& char_width(c) == 1
        } by {
            if k >= 2 {
                assert(r[k] == hex_run(rest, upper)[k - 2]);
            }
        }
    }
}

proof fn lemma_hex_run_chunks(d: Seq<u8>, upper: bool, k: int)
    requires
        0 <= k <= d.len(),
    ensures
        hex_chunks(hex_run(d, upper), 2 * k) == TokenOutcome::Bytes(d.skip(k)),
    decreases d.len() - k,
{
    let t = hex_run(d, upper);
    lemma_hex_run_shape(d, upper);
    if k == d.len() {
        assert(d.skip(k) =~= Seq::<u8>::empty());
    } else {
        lemma_hex_run_chunks(d, upper, k + 1);
        let hi = (d[k] / 16) as nat;
        let lo = (d[k] % 16) as nat;
        lemma_hex_digit_char(hi, upper);
        lemma_hex_digit_char(lo, upper);
        let a = t[2 * k];
        let b = t[2 * k + 1];
        assert(is_ascii_char(a) && is_ascii_char(b));
        assert(hi * 16 + lo == d[k] as nat);
        assert(radix16_pair(a, b) == Some(d[k]));
        assert(2 * k + 2 == 2 * (k + 1));
        assert(seq![d[k]] + d.skip(k + 1) =~= d.skip(k));
    }
}

/// Bytes written as one run of two-digit pairs, in either case and with
/// nothing between the pairs, typed into the transmit line in HEX mode,
/// give back exactly those bytes.
pub proof fn lemma_hex_run_round_trip(d: Seq<u8>, upper: bool)
    ensures
        spec_parse_hex(hex_run(d, upper)) == ParseOutcome::Parsed(d),
{
    let t = hex_run(d, upper);
    lemma_hex_run_shape(d, upper);
    let e = Seq::<char>::empty();
    if d.len() == 0 {
        assert(t =~= e);
        assert(d =~= Seq::<u8>::empty());
        assert(tokens(t) =~= Seq::<Seq<char>>::empty());
    } else {
        lemma_scan_append_word(e, t);
        assert(e + t =~= t);
        assert(scan_tokens(e) == (Seq::<Seq<char>>::empty(), e));
        assert(e + t =~= t);
        assert(tokens(t) == seq![t]);
        lemma_utf8_len_all_narrow(t);
        assert(seq![t].drop_last() =~= Seq::<Seq<char>>::empty());
        if d.len() == 1 {
            let hi = (d[0] / 16) as nat;
            let lo = (d[0] % 16) as nat;
            lemma_hex_digit_char(hi, upper);
            lemma_hex_digit_char(lo, upper);
            assert(hi * 16 + lo == d[0] as nat);
            assert(hex_token(t) == TokenOutcome::Bytes(seq![d[0]]));
            assert(Seq::<u8>::empty() + seq![d[0]] =~= d);
        } else {
            lemma_hex_run_chunks(d, upper, 0);
            assert(d.skip(0) =~= d);
            assert(hex_token(t) == TokenOutcome::Bytes(d));
            assert(Seq::<u8>::empty() + d =~= d);
        }
        assert(seq![t].last() == t);
        assert(fold_tokens(Seq::<Seq<char>>::empty(), true) == ParseOutcome::Parsed(
            Seq::<u8>::empty(),
        ));
        assert(fold_tokens(seq![t], true) == ParseOutcome::Parsed(Seq::<u8>::empty() + d));
    }
}

} // verus!
