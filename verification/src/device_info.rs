//! Assembly of the device details shown for a port: USB descriptors from the
//! port listing, and driver details from the Windows device database (whose
//! query text is built here and whose JSON answers are read here).
use vstd::prelude::*;
use crate::ports::{PortKind, PortListing, UsbDetails};
use crate::render::{decimal, digits_value, hex_char, lemma_decimal_reads_back};
use crate::serial_types::DeviceInfo;
use crate::text::{chars_of, push_char, push_chars, string_of_chars};
use crate::timestamp::{chrono_millis_ok, chrono_text, date_pattern, utc_date_text};

verus! {

broadcast use vstd::seq_lib::group_seq_properties;

// ---------------------------------------------------------------------------
// Outside helpers.
// ---------------------------------------------------------------------------

/// The string value under `key` of the JSON object in `text`, as
/// `serde_json::from_str::<Value>(text)` then `value[key].as_str()` find it;
/// absent when the text is not JSON, the value is not an object, the key is
/// missing or its value is not a string.
pub uninterp spec fn json_str_field(text: Seq<char>, key: Seq<char>) -> Option<Seq<char>>;

/// serde_json parse followed by a lookup of a string member.
#[verifier::external_body]
fn json_string_field(text: &str, key: &str) -> (r: Option<String>)
    ensures
        match r {
            Some(s) => json_str_field(text@, key@) == Some(s@),
            None => json_str_field(text@, key@) is None,
        },
{
    match serde_json::from_str::<serde_json::Value>(text) {
        Ok(v) => match v[key].as_str() {
            Some(s) => Some(s.to_string()),
            None => None,
        },
        Err(_) => None,
    }
}

/// `String::from_utf8_lossy(bytes)`: the decoded text, with invalid
/// sequences replaced.
pub uninterp spec fn lossy_text(bytes: Seq<u8>) -> Seq<char>;

/// `String::from_utf8_lossy`. Valid UTF-8 decodes unchanged; how invalid
/// sequences are replaced is left to the name.
#[verifier::external_body]
fn text_from_bytes(bytes: &[u8]) -> (s: String)
    ensures
        s@ == lossy_text(bytes@),
        vstd::utf8::valid_utf8(bytes@) ==> s@ == vstd::utf8::decode_utf8(bytes@),
{
    String::from_utf8_lossy(bytes).into_owned()
}

// ---------------------------------------------------------------------------
// Text transformations.
// ---------------------------------------------------------------------------

/// `str::replace(pat, "")`: every non-overlapping occurrence of `pat`,
/// leftmost first, removed.
pub open spec fn remove_all(s: Seq<char>, pat: Seq<char>) -> Seq<char>
    decreases s.len(),
{
    if pat.len() == 0 || s.len() < pat.len() {
        s
    } else if s.take(pat.len() as int) == pat {
        remove_all(s.skip(pat.len() as int), pat)
    } else {
        seq![s[0]] + remove_all(s.drop_first(), pat)
    }
}

fn starts_at(s: &Vec<char>, i: usize, pat: &Vec<char>) -> (b: bool)
    requires
        i + pat.len() <= s.len(),
    ensures
        b == (s@.subrange(i as int, i + pat.len()) == pat@),
{
    let mut k: usize = 0;
    while k < pat.len()
        invariant
            0 <= k <= pat.len(),
            i + pat.len() <= s.len(),
            forall|j: int| 0 <= j < k ==> s@[i + j] == pat@[j],
        decreases pat.len() - k,
    {
        if s[i + k] != pat[k] {
            assert(s@.subrange(i as int, i + pat.len())[k as int] != pat@[k as int]);
            return false;
        }
        k = k + 1;
    }
    assert(s@.subrange(i as int, i + pat.len()) =~= pat@);
    true
}

/// Removes every occurrence of `pat`, as `str::replace(pat, "")` does.
pub fn remove_all_chars(s: &Vec<char>, pat: &Vec<char>) -> (r: Vec<char>)
    ensures
        r@ == remove_all(s@, pat@),
{
    let mut out: Vec<char> = Vec::new();
    let mut i: usize = 0;
    assert(s@.skip(0) =~= s@);
    if pat.len() == 0 {
        return s.clone();
    }
    while i < s.len()
        invariant
            0 <= i <= s.len(),
            pat.len() > 0,
            remove_all(s@, pat@) == out@ + remove_all(s@.skip(i as int), pat@),
        decreases s.len() - i,
    {
        let ghost rest = s@.skip(i as int);
        if pat.len() <= s.len() - i && starts_at(s, i, pat) {
            proof {
                assert(rest.take(pat.len() as int) =~= s@.subrange(i as int, i + pat.len()));
                assert(rest.skip(pat.len() as int) =~= s@.skip(i + pat.len()));
            }
            i = i + pat.len();
        } else {
            proof {
                if i + pat.len() <= s.len() {
                    assert(rest.take(pat.len() as int) =~= s@.subrange(i as int, i + pat.len()));
                }
                assert(rest.drop_first() =~= s@.skip(i + 1));
                assert(rest[0] == s@[i as int]);
                assert(out@.push(s@[i as int]) + remove_all(s@.skip(i + 1), pat@) =~= out@ + (
                seq![rest[0]] + remove_all(rest.drop_first(), pat@)));
            }
            out.push(s[i]);
            i = i + 1;
        }
    }
    proof {
        assert(s@.skip(i as int) =~= Seq::<char>::empty());
        assert(out@ + Seq::<char>::empty() =~= out@);
    }
    out
}

/// Each backslash doubled (`str::replace("\\", "\\\\")`).
pub open spec fn double_backslashes(s: Seq<char>) -> Seq<char>
    decreases s.len(),
{
    if s.len() == 0 {
        seq![]
    } else if s.last() == '\\' {
        double_backslashes(s.drop_last()) + seq!['\\', '\\']
    } else {
        double_backslashes(s.drop_last()).push(s.last())
    }
}

pub fn double_backslashes_chars(s: &Vec<char>) -> (r: Vec<char>)
    ensures
        r@ == double_backslashes(s@),
{
    let mut out: Vec<char> = Vec::new();
    let mut i: usize = 0;
    assert(s@.take(0) =~= Seq::<char>::empty());
    while i < s.len()
        invariant
            0 <= i <= s.len(),
            out@ == double_backslashes(s@.take(i as int)),
        decreases s.len() - i,
    {
        assert(s@.take(i + 1).drop_last() =~= s@.take(i as int));
        assert(s@.take(i + 1).last() == s@[i as int]);
        if s[i] == '\\' {
            out.push('\\');
            out.push('\\');
            assert(out@ =~= double_backslashes(s@.take(i + 1)));
        } else {
            out.push(s[i]);
        }
        i = i + 1;
    }
    assert(s@.take(s.len() as int) =~= s@);
    out
}

// ---------------------------------------------------------------------------
// Decimal integers (`str::parse::<i64>`).
// ---------------------------------------------------------------------------

pub open spec fn is_dec_digit(c: char) -> bool {
    '0' <= c && c <= '9'
}

pub open spec fn all_dec(d: Seq<char>) -> bool {
    forall|i: int| 0 <= i < d.len() ==> is_dec_digit(#[trigger] d[i])
}

pub open spec fn dec_value(d: Seq<char>) -> nat
    decreases d.len(),
{
    if d.len() == 0 {
        0
    } else {
        dec_value(d.drop_last()) * 10 + ((d.last() as u32) - ('0' as u32)) as nat
    }
}

/// `i64::from_str`: an optional `+` or `-`, then at least one ASCII digit,
/// and a value within the range of `i64`.
pub open spec fn parse_i64_spec(s: Seq<char>) -> Option<i64> {
    if s.len() == 0 || s =~= seq!['+'] || s =~= seq!['-'] {
        None
    } else {
        let neg = s[0] == '-';
        let d = if s[0] == '+' || s[0] == '-' {
            s.drop_first()
        } else {
            s
        };
        if !all_dec(d) {
            None
        } else {
            let v: int = if neg {
                -(dec_value(d) as int)
            } else {
                dec_value(d) as int
            };
            if i64::MIN <= v && v <= i64::MAX {
                Some(v as i64)
            } else {
                None
            }
        }
    }
}

/// Parses a decimal `i64` as `str::parse::<i64>` does.
pub fn parse_i64(s: &Vec<char>) -> (r: Option<i64>)
    ensures
        r == parse_i64_spec(s@),
{
    if s.len() == 0 {
        return None;
    }
    if s.len() == 1 && (s[0] == '+' || s[0] == '-') {
        assert(s@ =~= seq![s@[0]]);
        return None;
    }
    let neg = s[0] == '-';
    let start: usize = if s[0] == '+' || s[0] == '-' {
        1
    } else {
        0
    };
    let ghost d = s@.skip(start as int);
    proof {
        if start == 1 {
            assert(d =~= s@.drop_first());
        } else {
            assert(d =~= s@);
        }
        assert(!(s@ =~= seq!['+']) && !(s@ =~= seq!['-'])) by {
            if s.len() == 1 {
                assert(s@[0] != '+' && s@[0] != '-');
            }
        }
    }
    // 2^63, the largest magnitude an i64 can hold.
    let bound: u64 = 9_223_372_036_854_775_808;
    let mut acc: u64 = 0;
    let mut i: usize = start;
    let mut too_big = false;
    assert(d.take(0) =~= Seq::<char>::empty());
    while i < s.len()
        invariant
            start <= i <= s.len(),
            s@.len() > 0,
            start == (if s@[0] == '+' || s@[0] == '-' { 1usize } else { 0usize }),
            bound == 9_223_372_036_854_775_808u64,
            d == s@.skip(start as int),
            all_dec(d.take(i - start)),
            !too_big ==> acc as nat == dec_value(d.take(i - start)),
            !too_big ==> acc <= bound,
            too_big ==> dec_value(d.take(i - start)) > bound,
        decreases s.len() - i,
    {
        let c = s[i];
        if !('0' <= c && c <= '9') {
            proof {
                assert(d[i - start] == c);
                assert(!is_dec_digit(d[i - start]));
                assert(!all_dec(d));
            }
            return None;
        }
        let ghost t = d.take(i - start + 1);
        let ghost before = d.take(i - start);
        proof {
            assert(t.drop_last() =~= before);
            assert(t.last() == c);
            assert forall|k: int| 0 <= k < t.len() implies is_dec_digit(#[trigger] t[k]) by {
                if k < t.len() - 1 {
                    assert(t[k] == before[k]);
                }
            }
        }
        let digit = (c as u32 - '0' as u32) as u64;
        assert(digit <= 9);
        assert(dec_value(t) == dec_value(before) * 10 + digit);
        if !too_big {
            if acc > (bound - digit) / 10 {
                assert(acc * 10 + digit > bound) by (nonlinear_arith)
                    requires
                        acc > (bound - digit) / 10,
                        digit <= 9,
                        bound > 9,
                ;
                too_big = true;
            } else {
                assert(acc * 10 + digit <= bound) by (nonlinear_arith)
                    requires
                        acc <= (bound - digit) / 10,
                        digit <= 9,
                        bound > 9,
                ;
                acc = acc * 10 + digit;
            }
        } else {
            assert(dec_value(before) * 10 + digit >= dec_value(before)) by (nonlinear_arith);
        }
        i = i + 1;
    }
    proof {
        assert(d.take(i - start) =~= d);
        if start == 1 {
            assert(d =~= s@.drop_first());
        } else {
            assert(d =~= s@);
        }
    }
    if too_big {
        return None;
    }
    if neg {
        if acc == bound {
            Some(i64::MIN)
        } else {
            Some(-(acc as i64))
        }
    } else {
        if acc == bound {
            None
        } else {
            Some(acc as i64)
        }
    }
}

// ---------------------------------------------------------------------------
// Device details.
// ---------------------------------------------------------------------------

/// `format!("0x{:04X}", v)`.
pub open spec fn hex_word(v: u16) -> Seq<char> {
    seq![
        '0',
        'x',
        hex_char(((v as nat) / 4096) % 16),
        hex_char(((v as nat) / 256) % 16),
        hex_char(((v as nat) / 16) % 16),
        hex_char((v as nat) % 16),
    ]
}

fn hex_digit_char(d: u16) -> (c: char)
    requires
        d < 16,
    ensures
        c == hex_char(d as nat),
{
    if d < 10 {
        ((48 + d) as u8) as char
    } else {
        ((55 + d) as u8) as char
    }
}

pub fn hex_word_string(v: u16) -> (s: String)
    ensures
        s@ == hex_word(v),
{
    let mut s = String::new();
    push_char(&mut s, '0');
    push_char(&mut s, 'x');
    push_char(&mut s, hex_digit_char((v / 4096) % 16));
    push_char(&mut s, hex_digit_char((v / 256) % 16));
    push_char(&mut s, hex_digit_char((v / 16) % 16));
    push_char(&mut s, hex_digit_char(v % 16));
    assert(s@ =~= hex_word(v));
    s
}

/// What the device database reported about a port (each may be missing).
#[derive(Clone, Debug)]
pub struct DriverDetails {
    pub manufacturer: Option<String>,
    pub device_id: Option<String>,
    pub service: Option<String>,
    pub driver_provider: Option<String>,
    pub driver_version: Option<String>,
    pub driver_date: Option<String>,
}

impl DriverDetails {
    pub fn none() -> (d: DriverDetails)
        ensures
            d.manufacturer is None && d.device_id is None && d.service is None
                && d.driver_provider is None && d.driver_version is None && d.driver_date is None,
    {
        DriverDetails {
            manufacturer: None,
            device_id: None,
            service: None,
            driver_provider: None,
            driver_version: None,
            driver_date: None,
        }
    }
}

pub open spec fn na() -> Seq<char> {
    "Not available"@
}

pub open spec fn or_na(o: Option<String>) -> Seq<char> {
    match o {
        Some(s) => s@,
        None => na(),
    }
}

pub open spec fn port_type_text(k: Option<PortKind>) -> Seq<char> {
    match k {
        Some(PortKind::Usb(_)) => "USB"@,
        Some(PortKind::Pci) => "PCI"@,
        Some(PortKind::Bluetooth) => "Bluetooth"@,
        _ => "Unknown"@,
    }
}

/// The first listed port with exactly this name.
pub open spec fn listed_kind(ports: Seq<PortListing>, name: Seq<char>) -> Option<PortKind> {
    if exists|i: int| 0 <= i < ports.len() && (#[trigger] ports[i]).port_name@ == name {
        Some(
            ports[choose|i: int|
                0 <= i < ports.len() && (#[trigger] ports[i]).port_name@ == name && forall|j: int|
                    0 <= j < i ==> (#[trigger] ports[j]).port_name@ != name].kind,
        )
    } else {
        None
    }
}

pub fn find_listed_kind(ports: &Vec<PortListing>, name: &String) -> (r: Option<PortKind>)
    ensures
        r == listed_kind(ports@, name@),
{
    let mut i: usize = 0;
    while i < ports.len()
        invariant
            0 <= i <= ports.len(),
            forall|k: int| 0 <= k < i ==> (#[trigger] ports@[k]).port_name@ != name@,
        decreases ports.len() - i,
    {
        if ports[i].port_name == *name {
            proof {
                assert(0 <= i < ports@.len() && ports@[i as int].port_name@ == name@ && forall|
                    jj: int,
                |
                    0 <= jj < i ==> (#[trigger] ports@[jj]).port_name@ != name@);
                let c = choose|k: int|
                    0 <= k < ports@.len() && (#[trigger] ports@[k]).port_name@ == name@
                        && forall|j: int|
                        0 <= j < k ==> (#[trigger] ports@[j]).port_name@ != name@;
                if c < i {
                    assert(ports@[c].port_name@ != name@);
                } else if c > i {
                    assert(ports@[i as int].port_name@ != name@);
                }
            }
            return Some(clone_kind(&ports[i].kind));
        }
        i = i + 1;
    }
    None
}

fn clone_opt(o: &Option<String>) -> (r: Option<String>)
    ensures
        r == *o,
{
    match o {
        Some(s) => Some(s.clone()),
        None => None,
    }
}

fn clone_kind(k: &PortKind) -> (r: PortKind)
    ensures
        r == *k,
{
    match k {
        PortKind::Usb(u) => PortKind::Usb(
            UsbDetails {
                vid: u.vid,
                pid: u.pid,
                serial_number: clone_opt(&u.serial_number),
                manufacturer: clone_opt(&u.manufacturer),
                product: clone_opt(&u.product),
            },
        ),
        PortKind::Pci => PortKind::Pci,
        PortKind::Bluetooth => PortKind::Bluetooth,
        PortKind::Unknown => PortKind::Unknown,
    }
}

/// The details shown for a port: driver details where the device database
/// gave them, USB descriptors where the port is on USB (the USB
/// manufacturer only where the database gave none, or gave the placeholder),
/// and `Not available` for the rest.
pub open spec fn device_info_spec(
    port_name: Seq<char>,
    kind: Option<PortKind>,
    drv: DriverDetails,
    r: DeviceInfo,
) -> bool {
    let db_manufacturer = or_na(drv.manufacturer);
    &&& r.port_name@ == port_name
    &&& r.device_id@ == or_na(drv.device_id)
    &&& r.service@ == or_na(drv.service)
    &&& r.driver_provider@ == or_na(drv.driver_provider)
    &&& r.driver_version@ == or_na(drv.driver_version)
    &&& r.driver_date@ == or_na(drv.driver_date)
    &&& r.port_type@ == port_type_text(kind)
    &&& match kind {
        Some(PortKind::Usb(u)) => {
            &&& r.vid@ == hex_word(u.vid)
            &&& r.pid@ == hex_word(u.pid)
            &&& r.serial_number@ == or_na(u.serial_number)
            &&& r.product@ == or_na(u.product)
            &&& r.manufacturer@ == if db_manufacturer == na() && u.manufacturer is Some {
                u.manufacturer->0@
            } else {
                db_manufacturer
            }
        },
        _ => {
            &&& r.vid@ == na()
            &&& r.pid@ == na()
            &&& r.serial_number@ == na()
            &&& r.product@ == na()
            &&& r.manufacturer@ == db_manufacturer
        },
    }
}

fn value_or_na(o: Option<String>) -> (s: String)
    ensures
        s@ == or_na(o),
{
    match o {
        Some(s) => s,
        None => String::from_str("Not available"),
    }
}

/// Combines the listing entry of the port (if found) with the device
/// database's details.
pub fn build_device_info(port_name: String, kind: Option<PortKind>, drv: DriverDetails) -> (r:
    DeviceInfo)
    ensures
        device_info_spec(port_name@, kind, drv, r),
{
    let ghost drv0 = drv;
    let ghost kind0 = kind;
    let mut manufacturer = value_or_na(drv.manufacturer);
    let device_id = value_or_na(drv.device_id);
    let service = value_or_na(drv.service);
    let driver_provider = value_or_na(drv.driver_provider);
    let driver_version = value_or_na(drv.driver_version);
    let driver_date = value_or_na(drv.driver_date);
    let mut port_type = String::from_str("Unknown");
    let mut vid = String::from_str("Not available");
    let mut pid = String::from_str("Not available");
    let mut serial_number = String::from_str("Not available");
    let mut product = String::from_str("Not available");
    if let Some(info) = kind {
        match info {
            PortKind::Usb(usb) => {
                port_type = String::from_str("USB");
                vid = hex_word_string(usb.vid);
                pid = hex_word_string(usb.pid);
                if let Some(sn) = usb.serial_number {
                    serial_number = sn;
                }
                if let Some(prod) = usb.product {
                    product = prod;
                }
                if manufacturer == String::from_str("Not available") {
                    if let Some(m) = usb.manufacturer {
                        manufacturer = m;
                    }
                }
            },
            PortKind::Pci => {
                port_type = String::from_str("PCI");
            },
            PortKind::Bluetooth => {
                port_type = String::from_str("Bluetooth");
            },
            PortKind::Unknown => {
                port_type = String::from_str("Unknown");
            },
        }
    }
    DeviceInfo {
        port_name,
        manufacturer,
        device_id,
        service,
        driver_provider,
        driver_version,
        driver_date,
        port_type,
        vid,
        pid,
        serial_number,
        product,
    }
}

// ---------------------------------------------------------------------------
// The device database (Windows PowerShell queries and their JSON answers).
// ---------------------------------------------------------------------------

pub open spec fn pnp_entity_query_spec(port_name: Seq<char>) -> Seq<char> {
    "Get-CimInstance Win32_PnPEntity | Where-Object { $_.Name -like '*("@ + port_name
        + ")*' } | Select-Object Manufacturer, DeviceID, Service | ConvertTo-Json"@
}

/// The PowerShell command that looks the port up among Plug-and-Play
/// entities by the `(PORT)` suffix of their names.
pub fn pnp_entity_query(port_name: &str) -> (q: String)
    ensures
        q@ == pnp_entity_query_spec(port_name@),
{
    let mut q = String::from_str("Get-CimInstance Win32_PnPEntity | Where-Object { $_.Name -like '*(");
    q.append(port_name);
    q.append(")*' } | Select-Object Manufacturer, DeviceID, Service | ConvertTo-Json");
    q
}

pub open spec fn signed_driver_query_spec(device_id: Seq<char>) -> Seq<char> {
    "Get-CimInstance Win32_PnPSignedDriver | Where-Object { $_.DeviceID -eq '"@
        + double_backslashes(device_id)
        + "' } | Select-Object DriverProviderName, DriverVersion, DriverDate | ConvertTo-Json"@
}

/// The PowerShell command that looks up the signed driver of a device id
/// (backslashes doubled).
pub fn signed_driver_query(device_id: &str) -> (q: String)
    ensures
        q@ == signed_driver_query_spec(device_id@),
{
    let escaped = double_backslashes_chars(&chars_of(device_id));
    let mut q = String::from_str(
        "Get-CimInstance Win32_PnPSignedDriver | Where-Object { $_.DeviceID -eq '",
    );
    push_chars(&mut q, &escaped);
    q.append("' } | Select-Object DriverProviderName, DriverVersion, DriverDate | ConvertTo-Json");
    q
}

/// The date shown for a driver: WMI writes `/Date(<ms>)/`; both markers are
/// removed, the rest read as milliseconds since the epoch, and the UTC
/// date `YYYY-MM-DD` taken; none when that fails at any step.
pub open spec fn driver_date_spec(raw: Seq<char>) -> Option<Seq<char>> {
    match parse_i64_spec(remove_all(remove_all(raw, "/Date("@), ")/"@)) {
        Some(ms) => if chrono_millis_ok(ms) {
            Some(chrono_text(ms, 0, date_pattern()))
        } else {
            None
        },
        None => None,
    }
}

pub fn driver_date_text(raw: &str) -> (r: Option<String>)
    ensures
        match r {
            Some(s) => driver_date_spec(raw@) == Some(s@),
            None => driver_date_spec(raw@) is None,
        },
{
    let step1 = remove_all_chars(&chars_of(raw), &chars_of("/Date("));
    let step2 = remove_all_chars(&step1, &chars_of(")/"));
    match parse_i64(&step2) {
        Some(ms) => utc_date_text(ms),
        None => None,
    }
}

/// A field takes the value found in the answer, and stays as it was when
/// none is found.
pub open spec fn field_update(new: Option<String>, old: Option<String>, found: Option<Seq<char>>) -> bool {
    match found {
        Some(v) => new matches Some(x) && x@ == v,
        None => new == old,
    }
}

/// The driver date found in an answer, when it reads as a date.
pub open spec fn found_date(text: Seq<char>) -> Option<Seq<char>> {
    match json_str_field(text, "DriverDate"@) {
        Some(raw) => driver_date_spec(raw),
        None => None,
    }
}

/// The three entity fields of the first query's answer, when the command
/// succeeded.
pub fn read_entity_answer(stdout: &[u8], success: bool, drv: &mut DriverDetails)
    ensures
        !success ==> *final(drv) == *old(drv),
        success ==> {
            let text = lossy_text(stdout@);
            &&& field_update(final(drv).manufacturer, old(drv).manufacturer, json_str_field(text, "Manufacturer"@))
            &&& field_update(final(drv).device_id, old(drv).device_id, json_str_field(text, "DeviceID"@))
            &&& field_update(final(drv).service, old(drv).service, json_str_field(text, "Service"@))
            &&& final(drv).driver_provider == old(drv).driver_provider
            &&& final(drv).driver_version == old(drv).driver_version
            &&& final(drv).driver_date == old(drv).driver_date
        },
{
    if !success {
        return;
    }
    let text = text_from_bytes(stdout);
    if let Some(m) = json_string_field(text.as_str(), "Manufacturer") {
        drv.manufacturer = Some(m);
    }
    if let Some(id) = json_string_field(text.as_str(), "DeviceID") {
        drv.device_id = Some(id);
    }
    if let Some(s) = json_string_field(text.as_str(), "Service") {
        drv.service = Some(s);
    }
}

/// The three driver fields of the second query's answer, when the command
/// succeeded; the date is kept only when it reads as a date.
pub fn read_driver_answer(stdout: &[u8], success: bool, drv: &mut DriverDetails)
    ensures
        !success ==> *final(drv) == *old(drv),
        success ==> {
            let text = lossy_text(stdout@);
            &&& field_update(final(drv).driver_provider, old(drv).driver_provider, json_str_field(text, "DriverProviderName"@))
            &&& field_update(final(drv).driver_version, old(drv).driver_version, json_str_field(text, "DriverVersion"@))
            &&& field_update(final(drv).driver_date, old(drv).driver_date, found_date(text))
            &&& final(drv).manufacturer == old(drv).manufacturer
            &&& final(drv).device_id == old(drv).device_id
            &&& final(drv).service == old(drv).service
        },
{
    if !success {
        return;
    }
    let text = text_from_bytes(stdout);
    if let Some(dp) = json_string_field(text.as_str(), "DriverProviderName") {
        drv.driver_provider = Some(dp);
    }
    if let Some(dv) = json_string_field(text.as_str(), "DriverVersion") {
        drv.driver_version = Some(dv);
    }
    if let Some(dd) = json_string_field(text.as_str(), "DriverDate") {
        if let Some(date) = driver_date_text(dd.as_str()) {
            drv.driver_date = Some(date);
        }
    }
}

/// Whether the driver query is worth running: only once the entity query
/// found a device id.
pub fn wants_driver_query(drv: &DriverDetails) -> (b: bool)
    ensures
        b == (drv.device_id matches Some(id) && id@ != na()),
{
    match &drv.device_id {
        Some(id) => !(*id == String::from_str("Not available")),
        None => false,
    }
}

} // verus!

verus! {

/// The port type shown for each kind of listing: `USB`, `PCI`, `Bluetooth`
/// for those buses, and `Unknown` for an unknown bus or a port that is not
/// listed; the four texts are distinct. The USB descriptors are shown only
/// for a USB port, `Not available` standing for anything missing.
pub proof fn lemma_device_info_port_type(
    port_name: Seq<char>,
    kind: Option<PortKind>,
    drv: DriverDetails,
    r: DeviceInfo,
)
    requires
        device_info_spec(port_name, kind, drv, r),
    ensures
        kind matches Some(PortKind::Usb(_)) ==> r.port_type@ == "USB"@,
        kind matches Some(PortKind::Pci) ==> r.port_type@ == "PCI"@,
        kind matches Some(PortKind::Bluetooth) ==> r.port_type@ == "Bluetooth"@,
        (kind is None || kind matches Some(PortKind::Unknown)) ==> r.port_type@ == "Unknown"@,
        "USB"@ != "PCI"@ && "USB"@ != "Bluetooth"@ && "USB"@ != "Unknown"@ && "PCI"@
            != "Bluetooth"@ && "PCI"@ != "Unknown"@ && "Bluetooth"@ != "Unknown"@,
        !(kind matches Some(PortKind::Usb(_))) ==> r.vid@ == "Not available"@ && r.pid@
            == "Not available"@ && r.serial_number@ == "Not available"@ && r.product@
            == "Not available"@,
        r.port_name@ == port_name,
{
    reveal_strlit("USB");
    reveal_strlit("PCI");
    reveal_strlit("Bluetooth");
    reveal_strlit("Unknown");
    assert("USB"@[0] != "PCI"@[0]);
    assert("USB"@.len() != "Bluetooth"@.len());
    assert("USB"@.len() != "Unknown"@.len());
    assert("PCI"@.len() != "Bluetooth"@.len());
    assert("PCI"@.len() != "Unknown"@.len());
    assert("Bluetooth"@.len() != "Unknown"@.len());
}

} // verus!

verus! {

proof fn lemma_dec_value_is_digits_value(d: Seq<char>)
    ensures
        dec_value(d) == digits_value(d),
    decreases d.len(),
{
    if d.len() > 0 {
        lemma_dec_value_is_digits_value(d.drop_last());
    }
}

/// `parse_i64` reads back what base 10 writes: the digits of any `n` up to
/// `i64::MAX`, with or without a leading `+`, give `n`; with a leading `-`
/// (for `n` up to 2^63) they give `-n`.
pub proof fn lemma_parse_i64_reads_decimal(n: nat)
    ensures
        n <= i64::MAX ==> parse_i64_spec(decimal(n)) == Some(n as i64),
        n <= i64::MAX ==> parse_i64_spec(seq!['+'] + decimal(n)) == Some(n as i64),
        n <= 0x8000_0000_0000_0000 ==> parse_i64_spec(seq!['-'] + decimal(n)) == Some(
            (-(n as int)) as i64,
        ),
        n > i64::MAX ==> parse_i64_spec(decimal(n)) is None,
{
    lemma_decimal_reads_back(n);
    let d = decimal(n);
    lemma_dec_value_is_digits_value(d);
    assert(all_dec(d));
    assert(d[0] != '+' && d[0] != '-');
    let p = seq!['+'] + d;
    let m = seq!['-'] + d;
    assert(p.drop_first() =~= d);
    assert(m.drop_first() =~= d);
    assert(p[0] == '+' && m[0] == '-');
    assert(!(p =~= seq!['+'])) by {
        assert(p.len() == d.len() + 1);
    }
    assert(!(m =~= seq!['-'])) by {
        assert(m.len() == d.len() + 1);
    }
    assert(!(d =~= seq!['+'])) by {
        assert(d[0] != '+');
    }
    assert(!(d =~= seq!['-'])) by {
        assert(d[0] != '-');
    }
}

/// Anything but an optional sign followed by digits is refused: a character
/// that is no digit, after the first position or at the first position
/// without being a sign, makes the parse fail.
pub proof fn lemma_parse_i64_refuses_non_digits(s: Seq<char>, i: int)
    requires
        0 <= i < s.len(),
        !('0' <= s[i] <= '9'),
        i > 0 || (s[i] != '+' && s[i] != '-'),
    ensures
        parse_i64_spec(s) is None,
{
    if !(s.len() == 0 || s =~= seq!['+'] || s =~= seq!['-']) {
        let d = if s[0] == '+' || s[0] == '-' {
            s.drop_first()
        } else {
            s
        };
        if s[0] == '+' || s[0] == '-' {
            assert(i > 0);
            assert(d[i - 1] == s[i]);
        } else {
            assert(d[i] == s[i]);
        }
    }
}

} // verus!

verus! {

/// The USB id text `0xHHHH` reads back as the id: `0x`, then four upper-case
/// hexadecimal digits, most significant first, whose value is `v`.
pub proof fn lemma_hex_word_reads_back(v: u16)
    ensures
        hex_word(v).len() == 6,
        hex_word(v)[0] == '0' && hex_word(v)[1] == 'x',
        forall|k: int|
            2 <= k < 6 ==> ('0' <= #[trigger] hex_word(v)[k] <= '9' || 'A' <= hex_word(v)[k]
                <= 'F'),
        crate::tx_parse::hex_digit_value(hex_word(v)[2])->0 as nat * 4096
            + crate::tx_parse::hex_digit_value(hex_word(v)[3])->0 as nat * 256
            + crate::tx_parse::hex_digit_value(hex_word(v)[4])->0 as nat * 16
            + crate::tx_parse::hex_digit_value(hex_word(v)[5])->0 as nat == v as nat,
{
    let a = ((v as nat) / 4096) % 16;
    let b = ((v as nat) / 256) % 16;
    let c = ((v as nat) / 16) % 16;
    let d = (v as nat) % 16;
    assert(a * 4096 + b * 256 + c * 16 + d == v as nat) by (nonlinear_arith)
        requires
            a == ((v as nat) / 4096) % 16,
            b == ((v as nat) / 256) % 16,
            c == ((v as nat) / 16) % 16,
            d == (v as nat) % 16,
            v < 65536,
    {
    }
    assert(crate::tx_parse::hex_digit_value(hex_char(a)) == Some(a as u8));
    assert(crate::tx_parse::hex_digit_value(hex_char(b)) == Some(b as u8));
    assert(crate::tx_parse::hex_digit_value(hex_char(c)) == Some(c as u8));
    assert(crate::tx_parse::hex_digit_value(hex_char(d)) == Some(d as u8));
}

} // verus!
