//! Rendering of one terminal line: an optional line number, an optional
//! timestamp, the direction tag, the printable-ASCII view of the bytes, and
//! optionally a HEX or binary translation underneath.
use vstd::prelude::*;
use crate::serial_types::{Direction, TranslationFormat, TxMode, tx_mode_label};
use crate::text::push_char;
use crate::timestamp::{Timestamp, chrono_text, entry_pattern};

verus! {

broadcast use vstd::seq_lib::group_seq_properties;

/// One line of the terminal.
#[derive(Debug, Clone)]
pub struct BufferEntry {
    pub timestamp: Timestamp,
    pub direction: Direction,
    pub data: Vec<u8>,
    /// Byte length of this entry's rendering in the buffer's cached text.
    pub formatted_len: usize,
}

/// How entries are rendered.
#[derive(Clone, Copy, Debug, PartialEq, Eq, Structural)]
pub struct RenderSettings {
    pub show_line_numbers: bool,
    pub show_timestamps: bool,
    pub enable_translation: bool,
    pub translation_format: TranslationFormat,
}

/// Uppercase hexadecimal digit for `d < 16`.
pub open spec fn hex_char(d: nat) -> char {
    if d < 10 {
        ((48 + d) as u32) as char
    } else {
        ((55 + d) as u32) as char
    }
}

/// Decimal digits of `n`, most significant first, without leading zeros.
pub open spec fn decimal(n: nat) -> Seq<char>
    decreases n,
{
    if n < 10 {
        seq![hex_char(n)]
    } else {
        decimal(n / 10).push(hex_char(n % 10))
    }
}

/// `format!("{:02X}", b)`.
pub open spec fn hex2(b: u8) -> Seq<char> {
    seq![hex_char((b / 16) as nat), hex_char((b % 16) as nat)]
}

pub open spec fn pow2(k: nat) -> nat
    decreases k,
{
    if k == 0 {
        1
    } else {
        2 * pow2((k - 1) as nat)
    }
}

/// `format!("{:08b}", b)`: eight binary digits, most significant first.
pub open spec fn bin8(b: u8) -> Seq<char> {
    Seq::new(
        8,
        |k: int|
            if ((b as nat) / pow2((7 - k) as nat)) % 2 == 1 {
                '1'
            } else {
                '0'
            },
    )
}

/// Per-byte renderings joined by single spaces.
pub open spec fn hex_view(d: Seq<u8>) -> Seq<char>
    decreases d.len(),
{
    if d.len() == 0 {
        seq![]
    } else if d.len() == 1 {
        hex2(d[0])
    } else {
        hex_view(d.drop_last()).push(' ') + hex2(d.last())
    }
}

pub open spec fn bin_view(d: Seq<u8>) -> Seq<char>
    decreases d.len(),
{
    if d.len() == 0 {
        seq![]
    } else if d.len() == 1 {
        bin8(d[0])
    } else {
        bin_view(d.drop_last()).push(' ') + bin8(d.last())
    }
}

/// Printable view: carriage returns and line feeds are dropped, bytes
/// 32..=126 shown as themselves, every other byte as `.`.
pub open spec fn ascii_view(d: Seq<u8>) -> Seq<char>
    decreases d.len(),
{
    if d.len() == 0 {
        seq![]
    } else {
        let b = d.last();
        if b == 13 || b == 10 {
            ascii_view(d.drop_last())
        } else if 32 <= b && b <= 126 {
            ascii_view(d.drop_last()).push(b as char)
        } else {
            ascii_view(d.drop_last()).push('.')
        }
    }
}

pub open spec fn line_number_part(line: Option<nat>) -> Seq<char> {
    match line {
        Some(n) => "["@ + decimal(n) + "] "@,
        None => seq![],
    }
}

pub open spec fn timestamp_part(ts: Timestamp, show: bool) -> Seq<char> {
    if show {
        chrono_text(ts.spec_millis(), ts.spec_offset(), entry_pattern())
    } else {
        seq![]
    }
}

pub open spec fn direction_tag(d: Direction) -> Seq<char> {
    match d {
        Direction::Rx => "[RX] "@,
        Direction::Tx(m) => "[TX-"@ + tx_mode_label(m) + "] "@,
    }
}

pub open spec fn translation_part(d: Seq<u8>, enable: bool, f: TranslationFormat) -> Seq<char> {
    if enable {
        "    \u{21b3} "@ + match f {
            TranslationFormat::Hex => "[HEX] "@ + hex_view(d) + "\n"@,
            TranslationFormat::Binary => "[BIN] "@ + bin_view(d) + "\n"@,
        }
    } else {
        seq![]
    }
}

/// The full rendering of one entry.
pub open spec fn render(
    ts: Timestamp,
    dir: Direction,
    data: Seq<u8>,
    line: Option<nat>,
    show_timestamps: bool,
    enable_translation: bool,
    f: TranslationFormat,
) -> Seq<char> {
    line_number_part(line) + timestamp_part(ts, show_timestamps) + direction_tag(dir) + ascii_view(
        data,
    ) + "\n"@ + translation_part(data, enable_translation, f)
}

fn digit_char(d: u8) -> (c: char)
    requires
        d < 16,
    ensures
        c == hex_char(d as nat),
{
    if d < 10 {
        (48 + d) as char
    } else {
        (55 + d) as char
    }
}

/// Appends the decimal digits of `n`.
pub fn push_decimal(s: &mut String, n: usize)
    ensures
        final(s)@ == old(s)@ + decimal(n as nat),
    decreases n,
{
    if n >= 10 {
        push_decimal(s, n / 10);
    }
    let d = (n % 10) as u8;
    push_char(s, digit_char(d));
    proof {
        if n >= 10 {
            assert(old(s)@ + decimal(n as nat) =~= (old(s)@ + decimal((n / 10) as nat)).push(
                hex_char((n % 10) as nat),
            ));
        } else {
            assert(old(s)@ + decimal(n as nat) =~= old(s)@.push(hex_char(n as nat)));
        }
    }
}

fn push_hex2(s: &mut String, b: u8)
    ensures
        final(s)@ == old(s)@ + hex2(b),
{
    push_char(s, digit_char(b / 16));
    push_char(s, digit_char(b % 16));
    assert(old(s)@ + hex2(b) =~= old(s)@.push(hex_char((b / 16) as nat)).push(
        hex_char((b % 16) as nat),
    ));
}

proof fn lemma_pow2_values()
    ensures
        pow2(0) == 1,
        pow2(1) == 2,
        pow2(2) == 4,
        pow2(3) == 8,
        pow2(4) == 16,
        pow2(5) == 32,
        pow2(6) == 64,
        pow2(7) == 128,
{
    reveal_with_fuel(pow2, 8);
}

fn push_bin8(s: &mut String, b: u8)
    ensures
        final(s)@ == old(s)@ + bin8(b),
{
    let ghost start = old(s)@;
    let mut div: u8 = 128;
    let mut k: usize = 0;
    proof {
        lemma_pow2_values();
    }
    while k < 8
        invariant
            0 <= k <= 8,
            div as nat == pow2((7 - k) as nat) || k == 8,
            k < 8 ==> div as nat == pow2((7 - k) as nat),
            k == 8 ==> div == 0,
            1 <= div || k == 8,
            s@ == start + bin8(b).take(k as int),
        decreases 8 - k,
    {
        proof {
            lemma_pow2_values();
        }
        let bit = (b / div) % 2;
        let c = if bit == 1 {
            '1'
        } else {
            '0'
        };
        push_char(s, c);
        proof {
            assert(bin8(b)[k as int] == c);
            assert(bin8(b).take(k + 1) =~= bin8(b).take(k as int).push(c));
        }
        div = div / 2;
        k = k + 1;
    }
    assert(bin8(b).take(8) =~= bin8(b));
}

/// `format!("{:02X}")` of each byte, joined by single spaces.
pub fn hex_string(d: &[u8]) -> (s: String)
    ensures
        s@ == hex_view(d@),
{
    let mut s = String::new();
    push_hex_view(&mut s, d);
    assert(Seq::<char>::empty() + hex_view(d@) =~= hex_view(d@));
    s
}

fn push_hex_view(s: &mut String, d: &[u8])
    ensures
        final(s)@ == old(s)@ + hex_view(d@),
{
    let ghost start = old(s)@;
    let mut i: usize = 0;
    assert(d@.take(0) =~= Seq::<u8>::empty());
    while i < d.len()
        invariant
            0 <= i <= d.len(),
            s@ == start + hex_view(d@.take(i as int)),
        decreases d.len() - i,
    {
        let ghost t = d@.take(i + 1);
        assert(t.drop_last() =~= d@.take(i as int));
        assert(t.last() == d@[i as int]);
        if i > 0 {
            push_char(s, ' ');
        }
        push_hex2(s, d[i]);
        proof {
            if i == 0 {
                assert(hex_view(t) == hex2(d@[0]));
                assert(start + hex_view(d@.take(0)) =~= start);
            }
            assert(s@ =~= start + hex_view(t));
        }
        i = i + 1;
    }
    assert(d@.take(d.len() as int) =~= d@);
}

fn push_bin_view(s: &mut String, d: &[u8])
    ensures
        final(s)@ == old(s)@ + bin_view(d@),
{
    let ghost start = old(s)@;
    let mut i: usize = 0;
    assert(d@.take(0) =~= Seq::<u8>::empty());
    while i < d.len()
        invariant
            0 <= i <= d.len(),
            s@ == start + bin_view(d@.take(i as int)),
        decreases d.len() - i,
    {
        let ghost t = d@.take(i + 1);
        assert(t.drop_last() =~= d@.take(i as int));
        assert(t.last() == d@[i as int]);
        if i > 0 {
            push_char(s, ' ');
        }
        push_bin8(s, d[i]);
        proof {
            if i == 0 {
                assert(bin_view(t) == bin8(d@[0]));
                assert(start + bin_view(d@.take(0)) =~= start);
            }
            assert(s@ =~= start + bin_view(t));
        }
        i = i + 1;
    }
    assert(d@.take(d.len() as int) =~= d@);
}

fn push_ascii_view(s: &mut String, d: &[u8])
    ensures
        final(s)@ == old(s)@ + ascii_view(d@),
{
    let ghost start = old(s)@;
    let mut i: usize = 0;
    assert(d@.take(0) =~= Seq::<u8>::empty());
    while i < d.len()
        invariant
            0 <= i <= d.len(),
            s@ == start + ascii_view(d@.take(i as int)),
        decreases d.len() - i,
    {
        let ghost t = d@.take(i + 1);
        assert(t.drop_last() =~= d@.take(i as int));
        assert(t.last() == d@[i as int]);
        let b = d[i];
        if b != 13 && b != 10 {
            if 32 <= b && b <= 126 {
                push_char(s, b as char);
            } else {
                push_char(s, '.');
            }
        }
        assert(s@ =~= start + ascii_view(t));
        i = i + 1;
    }
    assert(d@.take(d.len() as int) =~= d@);
}

/// Renders one entry: `[n] ` when a line number is given, the timestamp
/// when asked for, `[RX] ` or `[TX-<mode>] `, the printable view and a line
/// feed, then, when translation is on, an indented `[HEX] ..` or `[BIN] ..`
/// line.
pub fn render_entry(
    timestamp: &Timestamp,
    direction: Direction,
    data: &[u8],
    line_number: Option<usize>,
    show_timestamps: bool,
    enable_translation: bool,
    translation_format: TranslationFormat,
) -> (s: String)
    ensures
        s@ == render(
            *timestamp,
            direction,
            data@,
            match line_number {
                Some(n) => Some(n as nat),
                None => None,
            },
            show_timestamps,
            enable_translation,
            translation_format,
        ),
{
    let mut result = String::new();
    let ghost s0 = result@;
    if let Some(num) = line_number {
        result.append("[");
        push_decimal(&mut result, num);
        result.append("] ");
    }
    let ghost s1 = result@;
    if show_timestamps {
        let prefix = timestamp.entry_prefix();
        result.append(prefix.as_str());
    }
    let ghost s2 = result@;
    match direction {
        Direction::Rx => result.append("[RX] "),
        Direction::Tx(m) => {
            result.append("[TX-");
            result.append(m.label());
            result.append("] ");
        },
    }
    let ghost s3 = result@;
    push_ascii_view(&mut result, data);
    result.append("\n");
    let ghost s4 = result@;
    if enable_translation {
        result.append("    \u{21b3} ");
        match translation_format {
            TranslationFormat::Hex => {
                result.append("[HEX] ");
                push_hex_view(&mut result, data);
                result.append("\n");
            },
            TranslationFormat::Binary => {
                result.append("[BIN] ");
                push_bin_view(&mut result, data);
                result.append("\n");
            },
        }
    }
    proof {
        let line = match line_number {
            Some(n) => Some(n as nat),
            None => None,
        };
        assert(s1 =~= line_number_part(line));
        assert(s2 =~= s1 + timestamp_part(*timestamp, show_timestamps));
        assert(s3 =~= s2 + direction_tag(direction));
        assert(s4 =~= s3 + ascii_view(data@) + "\n"@);
        assert(result@ =~= s4 + translation_part(data@, enable_translation, translation_format));
    }
    result
}

} // verus!

verus! {

/// The printable view holds only printable ASCII and `.`, never a carriage
/// return or line feed, and is no longer than the bytes it shows.
pub proof fn lemma_ascii_view_printable(d: Seq<u8>)
    ensures
        ascii_view(d).len() <= d.len(),
        forall|i: int|
            0 <= i < ascii_view(d).len() ==> ((' ' <= #[trigger] ascii_view(d)[i] && ascii_view(
                d,
            )[i] <= '~') || ascii_view(d)[i] == '.'),
    decreases d.len(),
{
    if d.len() > 0 {
        let p = d.drop_last();
        lemma_ascii_view_printable(p);
        let v = ascii_view(d);
        let pv = ascii_view(p);
        assert forall|i: int| 0 <= i < v.len() implies ((' ' <= #[trigger] v[i] && v[i] <= '~')
            || v[i] == '.') by {
            if i < pv.len() {
                assert(v[i] == pv[i]);
            }
        }
    }
}

} // verus!

verus! {

/// The number a string of decimal digits stands for, most significant first.
pub open spec fn digits_value(s: Seq<char>) -> nat
    decreases s.len(),
{
    if s.len() == 0 {
        0
    } else {
        digits_value(s.drop_last()) * 10 + ((s.last() as u32) - 48) as nat
    }
}

/// Line numbers are written in base 10: the text consists of the digits
/// `0`..`9`, has no leading zero (unless the number is 0), and reads back as
/// the number itself.
pub proof fn lemma_decimal_reads_back(n: nat)
    ensures
        decimal(n).len() > 0,
        forall|i: int| 0 <= i < decimal(n).len() ==> '0' <= #[trigger] decimal(n)[i] <= '9',
        n > 0 ==> decimal(n)[0] != '0',
        digits_value(decimal(n)) == n,
    decreases n,
{
    if n >= 10 {
        let q = n / 10;
        let r = n % 10;
        lemma_decimal_reads_back(q);
        let d = decimal(n);
        assert(d == decimal(q).push(hex_char(r)));
        assert(d.drop_last() =~= decimal(q));
        assert(d.last() == hex_char(r));
        assert(((hex_char(r) as u32) - 48) as nat == r);
        assert(q * 10 + r == n);
        assert(digits_value(d) == digits_value(d.drop_last()) * 10 + ((d.last() as u32) - 48) as nat);
        assert(digits_value(d) == q * 10 + r);
        assert forall|i: int| 0 <= i < d.len() implies '0' <= #[trigger] d[i] <= '9' by {
            if i < decimal(q).len() {
                assert(d[i] == decimal(q)[i]);
            }
        }
        assert(d[0] == decimal(q)[0]);
    } else {
        let d = decimal(n);
        assert(d == seq![hex_char(n)]);
        assert(d.drop_last() =~= Seq::<char>::empty());
        assert(((hex_char(n) as u32) - 48) as nat == n);
        assert(digits_value(d) == digits_value(d.drop_last()) * 10 + ((d.last() as u32) - 48) as nat);
        assert(digits_value(Seq::<char>::empty()) == 0);
    }
}

} // verus!

verus! {

/// The printable view of two pieces is the views of the pieces, joined.
pub proof fn lemma_ascii_view_concat(a: Seq<u8>, c: Seq<u8>)
    ensures
        ascii_view(a + c) == ascii_view(a) + ascii_view(c),
    decreases c.len(),
{
    if c.len() == 0 {
        assert(a + c =~= a);
        assert(ascii_view(a) + Seq::<char>::empty() =~= ascii_view(a));
    } else {
        let c0 = c.drop_last();
        lemma_ascii_view_concat(a, c0);
        assert((a + c).drop_last() =~= a + c0);
        assert((a + c).last() == c.last());
        let b = c.last();
        if !(b == 13 || b == 10) {
            let ch: char = if 32 <= b && b <= 126 {
                b as char
            } else {
                '.'
            };
            assert((ascii_view(a) + ascii_view(c0)).push(ch) =~= ascii_view(a) + ascii_view(
                c0,
            ).push(ch));
        }
    }
}

/// Carriage returns and line feeds are dropped wherever they stand; every
/// other byte becomes one character, in order: itself when it is printable
/// ASCII (32..=126), `.` otherwise.
pub proof fn lemma_ascii_view_exact(a: Seq<u8>, b: u8, c: Seq<u8>, d: Seq<u8>)
    ensures
        (b == 13 || b == 10) ==> ascii_view(a + seq![b] + c) == ascii_view(a + c),
        (forall|i: int| 0 <= i < d.len() ==> #[trigger] d[i] != 13 && d[i] != 10) ==> {
            &&& ascii_view(d).len() == d.len()
            &&& forall|i: int|
                0 <= i < d.len() ==> #[trigger] ascii_view(d)[i] == if 32 <= d[i] && d[i] <= 126 {
                    d[i] as char
                } else {
                    '.'
                }
        },
    decreases d.len(),
{
    lemma_ascii_view_concat(a + seq![b], c);
    lemma_ascii_view_concat(a, seq![b]);
    lemma_ascii_view_concat(a, c);
    assert(seq![b].drop_last() =~= Seq::<u8>::empty());
    if b == 13 || b == 10 {
        assert(ascii_view(seq![b]) =~= Seq::<char>::empty());
        assert(ascii_view(a) + Seq::<char>::empty() =~= ascii_view(a));
    }
    if (forall|i: int| 0 <= i < d.len() ==> #[trigger] d[i] != 13 && d[i] != 10) && d.len() > 0 {
        let p = d.drop_last();
        assert forall|i: int| 0 <= i < p.len() implies #[trigger] p[i] != 13 && p[i] != 10 by {
            assert(p[i] == d[i]);
        }
        lemma_ascii_view_exact(a, b, c, p);
        assert(d.last() == d[d.len() - 1]);
        assert forall|i: int| 0 <= i < d.len() implies #[trigger] ascii_view(d)[i] == if 32
            <= d[i] && d[i] <= 126 {
            d[i] as char
        } else {
            '.'
        } by {
            if i < p.len() {
                assert(ascii_view(d)[i] == ascii_view(p)[i]);
                assert(d[i] == p[i]);
            }
        }
    }
}

} // verus!
