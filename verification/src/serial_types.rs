//! Settings and descriptive types of a serial connection.
use vstd::prelude::*;

verus! {

/// What is appended to an ASCII transmit line.
#[derive(Clone, Copy, Debug, PartialEq, Eq, Structural)]
pub enum LineEnding {
    Empty,
    CR,
    LF,
    CRLF,
}

pub open spec fn line_ending_chars(le: LineEnding) -> Seq<char> {
    match le {
        LineEnding::Empty => seq![],
        LineEnding::CR => seq!['\r'],
        LineEnding::LF => seq!['\n'],
        LineEnding::CRLF => seq!['\r', '\n'],
    }
}

impl LineEnding {
    /// The characters this line ending stands for.
    pub fn as_str(&self) -> (s: &'static str)
        ensures
            s@ == line_ending_chars(*self),
    {
        match self {
            LineEnding::Empty => {
                proof {
                    reveal_strlit("");
                }
                ""
            },
            LineEnding::CR => {
                proof {
                    reveal_strlit("\r");
                }
                "\r"
            },
            LineEnding::LF => {
                proof {
                    reveal_strlit("\n");
                }
                "\n"
            },
            LineEnding::CRLF => {
                proof {
                    reveal_strlit("\r\n");
                }
                "\r\n"
            },
        }
    }

    /// The name shown in the line-ending selector.
    pub fn label(&self) -> (s: &'static str)
        ensures
            s@ == line_ending_label(*self),
    {
        match self {
            LineEnding::Empty => "None",
            LineEnding::CR => "CR",
            LineEnding::LF => "LF",
            LineEnding::CRLF => "CRLF",
        }
    }
}

pub open spec fn line_ending_label(le: LineEnding) -> Seq<char> {
    match le {
        LineEnding::Empty => "None"@,
        LineEnding::CR => "CR"@,
        LineEnding::LF => "LF"@,
        LineEnding::CRLF => "CRLF"@,
    }
}

/// How the transmit line is read.
#[derive(Clone, Copy, Debug, PartialEq, Eq, Structural)]
pub enum TxMode {
    Ascii,
    Hex,
    Binary,
}

pub open spec fn tx_mode_label(m: TxMode) -> Seq<char> {
    match m {
        TxMode::Ascii => "ASCII"@,
        TxMode::Hex => "HEX"@,
        TxMode::Binary => "BIN"@,
    }
}

impl TxMode {
    /// The name shown for this mode (also used in `[TX-..]` line tags).
    pub fn label(&self) -> (s: &'static str)
        ensures
            s@ == tx_mode_label(*self),
    {
        match self {
            TxMode::Ascii => "ASCII",
            TxMode::Hex => "HEX",
            TxMode::Binary => "BIN",
        }
    }
}

/// The second line printed under each terminal line.
#[derive(Clone, Copy, Debug, PartialEq, Eq, Structural)]
pub enum TranslationFormat {
    Hex,
    Binary,
}

impl TranslationFormat {
    pub fn label(&self) -> (s: &'static str)
        ensures
            s@ == (match *self {
                TranslationFormat::Hex => "HEX"@,
                TranslationFormat::Binary => "Binary"@,
            }),
    {
        match self {
            TranslationFormat::Hex => "HEX",
            TranslationFormat::Binary => "Binary",
        }
    }
}

/// Whether a terminal line was received or sent (and in which mode).
#[derive(Clone, Copy, Debug, PartialEq, Eq, Structural)]
pub enum Direction {
    Rx,
    Tx(TxMode),
}

/// How received data is shown.
#[derive(Clone, Copy, Debug, PartialEq, Eq, Structural)]
pub enum DisplayMode {
    Ascii,
    Hex,
}

#[derive(Clone, Copy, Debug, PartialEq, Eq, Structural)]
pub enum DataBits {
    Five,
    Six,
    Seven,
    Eight,
}

#[derive(Clone, Copy, Debug, PartialEq, Eq, Structural)]
pub enum Parity {
    Disabled,
    Odd,
    Even,
}

#[derive(Clone, Copy, Debug, PartialEq, Eq, Structural)]
pub enum StopBits {
    One,
    Two,
}

#[derive(Clone, Copy, Debug, PartialEq, Eq, Structural)]
pub enum FlowControl {
    Disabled,
    Software,
    Hardware,
}

/// Everything needed to open a port, and how often the worker polls it.
#[derive(Clone, Debug)]
pub struct SerialSettings {
    pub port_name: String,
    pub baud_rate: u32,
    pub data_bits: DataBits,
    pub parity: Parity,
    pub stop_bits: StopBits,
    pub flow_control: FlowControl,
    pub poll_interval_ms: u64,
}

impl SerialSettings {
    /// No port chosen, 115200 baud, 8N1 without flow control, 10 ms polling.
    pub fn default_settings() -> (s: SerialSettings)
        ensures
            s.port_name@ == Seq::<char>::empty(),
            s.baud_rate == 115200,
            s.data_bits == DataBits::Eight,
            s.parity == Parity::Disabled,
            s.stop_bits == StopBits::One,
            s.flow_control == FlowControl::Disabled,
            s.poll_interval_ms == 10,
    {
        SerialSettings {
            port_name: String::new(),
            baud_rate: 115200,
            data_bits: DataBits::Eight,
            parity: Parity::Disabled,
            stop_bits: StopBits::One,
            flow_control: FlowControl::Disabled,
            poll_interval_ms: 10,
        }
    }
}

/// Hardware and driver details of one port, each a display string.
#[derive(Clone, Debug)]
pub struct DeviceInfo {
    pub port_name: String,
    pub manufacturer: String,
    pub device_id: String,
    pub service: String,
    pub driver_provider: String,
    pub driver_version: String,
    pub driver_date: String,
    pub port_type: String,
    pub vid: String,
    pub pid: String,
    pub serial_number: String,
    pub product: String,
}

} // verus!

verus! {

/// Each transmit mode has its own tag, each line ending its own name, and
/// each line ending adds different characters: nothing, a carriage return, a
/// line feed, or a carriage return followed by a line feed.
pub proof fn lemma_labels_distinct(a: TxMode, b: TxMode, x: LineEnding, y: LineEnding)
    ensures
        a != b ==> tx_mode_label(a) != tx_mode_label(b),
        x != y ==> line_ending_label(x) != line_ending_label(y),
        x != y ==> line_ending_chars(x) != line_ending_chars(y),
        line_ending_chars(x).len() <= 2,
        forall|i: int|
            0 <= i < line_ending_chars(x).len() ==> #[trigger] line_ending_chars(x)[i] == '\r'
                || line_ending_chars(x)[i] == '\n',
        line_ending_chars(LineEnding::CRLF) == seq!['\r', '\n'],
{
    reveal_strlit("ASCII");
    reveal_strlit("HEX");
    reveal_strlit("BIN");
    reveal_strlit("None");
    reveal_strlit("CR");
    reveal_strlit("LF");
    reveal_strlit("CRLF");
    assert("ASCII"@.len() != "HEX"@.len());
    assert("ASCII"@.len() != "BIN"@.len());
    assert("HEX"@[0] != "BIN"@[0]);
    assert("None"@.len() != "CR"@.len());
    assert("None"@.len() != "LF"@.len());
    assert("None"@[0] != "CRLF"@[0]);
    assert("CR"@[0] != "LF"@[0]);
    assert("CR"@.len() != "CRLF"@.len());
    assert("LF"@.len() != "CRLF"@.len());
    if x != y {
        assert(line_ending_chars(x).len() != line_ending_chars(y).len() || line_ending_chars(x)[0]
            != line_ending_chars(y)[0]);
    }
}

} // verus!
