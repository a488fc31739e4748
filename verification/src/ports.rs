//! Classification and naming of the serial ports found on the system, and
//! the choice of the selected port when the list or the filter changes.
use vstd::prelude::*;
use crate::text::{is_whitespace_char, is_ws, push_chars};

verus! {

broadcast use vstd::seq_lib::group_seq_properties;

/// USB descriptors of a port, as reported by the system.
#[derive(Clone, Debug)]
pub struct UsbDetails {
    pub vid: u16,
    pub pid: u16,
    pub serial_number: Option<String>,
    pub manufacturer: Option<String>,
    pub product: Option<String>,
}

/// The bus a port sits on.
#[derive(Clone, Debug)]
pub enum PortKind {
    Usb(UsbDetails),
    Pci,
    Bluetooth,
    Unknown,
}

/// One port as the system lists it.
#[derive(Clone, Debug)]
pub struct PortListing {
    pub port_name: String,
    pub kind: PortKind,
}

/// A port as the port selector shows it.
#[derive(Clone, Debug)]
pub struct PortDetails {
    pub port_name: String,
    pub display_name: String,
    pub is_low_info_or_microsoft: bool,
}

/// The result of `str::to_lowercase` (Unicode lowercase mapping).
pub uninterp spec fn std_lowercase(s: Seq<char>) -> Seq<char>;

/// `str::to_lowercase`. Only its being a function of the text is claimed;
/// the Unicode case tables are std's.
#[verifier::external_body]
fn lowercase(s: &str) -> (r: String)
    ensures
        r@ == std_lowercase(s@),
{
    s.to_lowercase()
}

/// `needle` occurs in `hay` at some position.
pub open spec fn contains_seq(hay: Seq<char>, needle: Seq<char>) -> bool {
    exists|i: int|
        0 <= i && i + needle.len() <= hay.len() && #[trigger] hay.subrange(i, i + needle.len())
            == needle
}

/// Leading whitespace removed.
pub open spec fn trim_start(s: Seq<char>) -> Seq<char>
    decreases s.len(),
{
    if s.len() > 0 && is_ws(s[0]) {
        trim_start(s.drop_first())
    } else {
        s
    }
}

/// Trailing whitespace removed.
pub open spec fn trim_end(s: Seq<char>) -> Seq<char>
    decreases s.len(),
{
    if s.len() > 0 && is_ws(s.last()) {
        trim_end(s.drop_last())
    } else {
        s
    }
}

/// `str::trim`.
pub open spec fn trim(s: Seq<char>) -> Seq<char> {
    trim_end(trim_start(s))
}

pub open spec fn not_available() -> Seq<char> {
    "Not available"@
}

/// A descriptor counts as present when it is given and is not the
/// placeholder `Not available`.
pub open spec fn present(o: Option<String>) -> bool {
    match o {
        Some(s) => s@ != not_available(),
        None => false,
    }
}

/// Ports hidden by the "Filter MS/Low-Info" option: anything not on USB,
/// USB ports whose manufacturer is missing, empty or mentions Microsoft (in
/// any case), and USB ports lacking a VID/PID pair, a serial number or a
/// product name.
pub open spec fn low_info_or_microsoft(k: PortKind) -> bool {
    match k {
        PortKind::Usb(u) => {
            ||| match u.manufacturer {
                Some(m) => m@.len() == 0 || contains_seq(std_lowercase(m@), "microsoft"@),
                None => true,
            }
            ||| (u.vid == 0 && u.pid == 0)
            ||| !present(u.serial_number)
            ||| !present(u.product)
        },
        _ => true,
    }
}

/// A descriptor that can name the device: given, not blank, and not the
/// placeholder `not available` (in any case) once trimmed.
pub open spec fn usable_name(o: Option<String>) -> bool {
    match o {
        Some(s) => trim(s@).len() > 0 && std_lowercase(trim(s@)) != "not available"@,
        None => false,
    }
}

/// The device name shown after the port name: the trimmed product name when
/// it is usable, else the trimmed manufacturer when that is usable, else none.
pub open spec fn name_part(k: PortKind) -> Option<Seq<char>> {
    match k {
        PortKind::Usb(u) => if usable_name(u.product) {
            Some(trim(u.product->0@))
        } else if usable_name(u.manufacturer) {
            Some(trim(u.manufacturer->0@))
        } else {
            None
        },
        _ => None,
    }
}

/// `PORT_Name` when there is a device name, else the port name alone.
pub open spec fn display_name(port_name: Seq<char>, k: PortKind) -> Seq<char> {
    match name_part(k) {
        Some(n) => port_name + "_"@ + n,
        None => port_name,
    }
}

fn seq_eq(a: &Vec<char>, b: &Vec<char>) -> (r: bool)
    ensures
        r == (a@ == b@),
{
    if a.len() != b.len() {
        return false;
    }
    let mut i: usize = 0;
    while i < a.len()
        invariant
            0 <= i <= a.len(),
            a.len() == b.len(),
            forall|k: int| 0 <= k < i ==> a@[k] == b@[k],
        decreases a.len() - i,
    {
        if a[i] != b[i] {
            return false;
        }
        i = i + 1;
    }
    assert(a@ =~= b@);
    true
}

/// Whether `needle` occurs in `hay`.
pub fn contains_chars(hay: &Vec<char>, needle: &Vec<char>) -> (r: bool)
    ensures
        r == contains_seq(hay@, needle@),
{
    if needle.len() > hay.len() {
        return false;
    }
    let mut i: usize = 0;
    while i <= hay.len() - needle.len()
        invariant
            needle.len() <= hay.len(),
            0 <= i <= hay.len() - needle.len() + 1,
            forall|k: int|
                0 <= k < i ==> #[trigger] hay@.subrange(k, k + needle@.len()) != needle@,
        decreases hay.len() - i,
    {
        let mut j: usize = 0;
        let mut same = true;
        while j < needle.len()
            invariant
                0 <= j <= needle.len(),
                i + needle.len() <= hay.len(),
                same == (forall|k: int| 0 <= k < j ==> hay@[i + k] == needle@[k]),
            decreases needle.len() - j,
        {
            if hay[i + j] != needle[j] {
                same = false;
            }
            j = j + 1;
        }
        if same {
            assert(hay@.subrange(i as int, i + needle@.len()) =~= needle@);
            return true;
        }
        proof {
            let k0 = choose|k: int| 0 <= k < needle.len() && hay@[i + k] != needle@[k];
            assert(hay@.subrange(i as int, i + needle@.len())[k0] != needle@[k0]);
        }
        i = i + 1;
    }
    false
}

proof fn lemma_trim_start_suffix(s: Seq<char>)
    ensures
        trim_start(s).len() <= s.len(),
        trim_start(s) == s.skip(s.len() - trim_start(s).len()),
    decreases s.len(),
{
    if s.len() > 0 && is_ws(s[0]) {
        lemma_trim_start_suffix(s.drop_first());
        assert(s.drop_first().skip(s.drop_first().len() - trim_start(s).len()) =~= s.skip(
            s.len() - trim_start(s).len(),
        ));
    } else {
        assert(s.skip(0) =~= s);
    }
}

proof fn lemma_trim_end_prefix(s: Seq<char>)
    ensures
        trim_end(s).len() <= s.len(),
        trim_end(s) == s.take(trim_end(s).len() as int),
    decreases s.len(),
{
    if s.len() > 0 && is_ws(s.last()) {
        lemma_trim_end_prefix(s.drop_last());
        assert(s.drop_last().take(trim_end(s).len() as int) =~= s.take(trim_end(s).len() as int));
    } else {
        assert(s.take(s.len() as int) =~= s);
    }
}

/// `str::trim` on a character vector.
pub fn trim_chars(s: &Vec<char>) -> (r: Vec<char>)
    ensures
        r@ == trim(s@),
{
    let mut a: usize = 0;
    while a < s.len() && is_whitespace_char(s[a])
        invariant
            0 <= a <= s.len(),
            trim_start(s@) == trim_start(s@.skip(a as int)),
        decreases s.len() - a,
    {
        proof {
            assert(s@.skip(a as int).drop_first() =~= s@.skip(a + 1));
            assert(s@.skip(a as int)[0] == s@[a as int]);
        }
        a = a + 1;
    }
    let ghost t = s@.skip(a as int);
    proof {
        if a < s.len() {
            assert(t[0] == s@[a as int]);
        }
        assert(trim_start(t) == t);
    }
    let mut b: usize = s.len();
    proof {
        assert(s@.subrange(a as int, b as int) =~= t);
    }
    while b > a && is_whitespace_char(s[b - 1])
        invariant
            a <= b <= s.len(),
            t == s@.skip(a as int),
            trim_end(t) == trim_end(s@.subrange(a as int, b as int)),
        decreases b - a,
    {
        proof {
            assert(s@.subrange(a as int, b as int).drop_last() =~= s@.subrange(a as int, b - 1));
            assert(s@.subrange(a as int, b as int).last() == s@[b - 1]);
        }
        b = b - 1;
    }
    let ghost u = s@.subrange(a as int, b as int);
    proof {
        if b > a {
            assert(u.last() == s@[b - 1]);
        }
        assert(trim_end(u) == u);
    }
    let mut r: Vec<char> = Vec::new();
    let mut k: usize = a;
    while k < b
        invariant
            a <= k <= b,
            b <= s.len(),
            r@ == s@.subrange(a as int, k as int),
        decreases b - k,
    {
        r.push(s[k]);
        assert(s@.subrange(a as int, k + 1) =~= s@.subrange(a as int, k as int).push(s@[k as int]));
        k = k + 1;
    }
    r
}

fn chars_of_string(s: &String) -> (v: Vec<char>)
    ensures
        v@ == s@,
{
    crate::text::chars_of(s.as_str())
}

fn literal_chars(s: &str) -> (v: Vec<char>)
    ensures
        v@ == s@,
{
    crate::text::chars_of(s)
}

fn is_present(o: &Option<String>) -> (b: bool)
    ensures
        b == present(*o),
{
    match o {
        Some(s) => {
            let na = String::from_str("Not available");
            !(*s == na)
        },
        None => false,
    }
}

/// The trimmed descriptor when it can name the device.
fn usable_trimmed(o: &Option<String>) -> (r: Option<Vec<char>>)
    ensures
        r is Some <==> usable_name(*o),
        r matches Some(t) ==> t@ == trim(o->0@),
{
    match o {
        Some(name) => {
            let trimmed = trim_chars(&chars_of_string(name));
            let trimmed_str = crate::text::string_of_chars(&trimmed);
            let lower = lowercase(trimmed_str.as_str());
            if trimmed.len() == 0 || lower == String::from_str("not available") {
                None
            } else {
                Some(trimmed)
            }
        },
        None => None,
    }
}

/// Classifies a listed port and builds its display name.
pub fn describe_port(p: &PortListing) -> (d: PortDetails)
    ensures
        d.port_name@ == p.port_name@,
        d.display_name@ == display_name(p.port_name@, p.kind),
        d.is_low_info_or_microsoft == low_info_or_microsoft(p.kind),
{
    let port_name = p.port_name.clone();
    let mut low = false;
    let mut name: Option<Vec<char>> = None;
    match &p.kind {
        PortKind::Usb(usb) => {
            name = match usable_trimmed(&usb.product) {
                Some(t) => Some(t),
                None => usable_trimmed(&usb.manufacturer),
            };
            match &usb.manufacturer {
                Some(m) => {
                    if m.as_str().is_empty() {
                        low = true;
                    } else {
                        let lower = lowercase(m.as_str());
                        if contains_chars(&chars_of_string(&lower), &literal_chars("microsoft")) {
                            low = true;
                        }
                    }
                },
                None => {
                    low = true;
                },
            }
            let has_vid_pid = usb.vid != 0 || usb.pid != 0;
            let has_serial = is_present(&usb.serial_number);
            let has_product = is_present(&usb.product);
            if !has_vid_pid || !has_serial || !has_product {
                low = true;
            }
        },
        _ => {
            low = true;
        },
    }
    let display = match name {
        Some(trimmed) => {
            let mut out = port_name.clone();
            out.append("_");
            push_chars(&mut out, &trimmed);
            out
        },
        None => port_name.clone(),
    };
    PortDetails { port_name, display_name: display, is_low_info_or_microsoft: low }
}

/// Whether the selector shows this port under the given filter.
pub open spec fn visible(p: PortDetails, exclude_low_info: bool) -> bool {
    !exclude_low_info || !p.is_low_info_or_microsoft
}

/// Index of the first visible port, if any.
pub open spec fn first_visible(ports: Seq<PortDetails>, exclude_low_info: bool) -> Option<int> {
    if exists|i: int| 0 <= i < ports.len() && visible(#[trigger] ports[i], exclude_low_info) {
        Some(
            choose|i: int|
                0 <= i < ports.len() && visible(#[trigger] ports[i], exclude_low_info) && forall|
                    j: int,
                |
                    0 <= j < i ==> !visible(#[trigger] ports[j], exclude_low_info),
        )
    } else {
        None
    }
}

/// The port that stays selected: the current one while it is listed and
/// visible, else the first visible port, else none (the empty name).
pub open spec fn chosen_port(
    ports: Seq<PortDetails>,
    current: Seq<char>,
    exclude_low_info: bool,
) -> Seq<char> {
    if exists|i: int|
        0 <= i < ports.len() && (#[trigger] ports[i]).port_name@ == current && visible(
            ports[i],
            exclude_low_info,
        ) {
        current
    } else {
        match first_visible(ports, exclude_low_info) {
            Some(i) => ports[i].port_name@,
            None => seq![],
        }
    }
}

/// Keeps or replaces the selected port after a rescan or a change of the
/// filter.
pub fn choose_port(ports: &Vec<PortDetails>, current: &String, exclude_low_info: bool) -> (r:
    String)
    ensures
        r@ == chosen_port(ports@, current@, exclude_low_info),
{
    let mut i: usize = 0;
    while i < ports.len()
        invariant
            0 <= i <= ports.len(),
            forall|k: int|
                0 <= k < i ==> !((#[trigger] ports@[k]).port_name@ == current@ && visible(
                    ports@[k],
                    exclude_low_info,
                )),
        decreases ports.len() - i,
    {
        if ports[i].port_name == *current && (!exclude_low_info
            || !ports[i].is_low_info_or_microsoft) {
            return current.clone();
        }
        i = i + 1;
    }
    let mut j: usize = 0;
    while j < ports.len()
        invariant
            0 <= j <= ports.len(),
            forall|k: int| 0 <= k < j ==> !visible(#[trigger] ports@[k], exclude_low_info),
            forall|k: int|
                0 <= k < ports.len() ==> !((#[trigger] ports@[k]).port_name@ == current@ && visible(
                    ports@[k],
                    exclude_low_info,
                )),
        decreases ports.len() - j,
    {
        if !exclude_low_info || !ports[j].is_low_info_or_microsoft {
            proof {
                assert(0 <= j < ports@.len() && visible(ports@[j as int], exclude_low_info)
                    && forall|jj: int|
                    0 <= jj < j ==> !visible(#[trigger] ports@[jj], exclude_low_info));
                let c = choose|i: int|
                    0 <= i < ports@.len() && visible(#[trigger] ports@[i], exclude_low_info)
                        && forall|j: int|
                        0 <= j < i ==> !visible(#[trigger] ports@[j], exclude_low_info);
                assert(visible(ports@[j as int], exclude_low_info));
                if c < j {
                    assert(!visible(ports@[c], exclude_low_info));
                } else if c > j {
                    assert(!visible(ports@[j as int], exclude_low_info));
                }
            }
            return ports[j].port_name.clone();
        }
        j = j + 1;
    }
    String::new()
}

/// The text shown for the selected port: its display name when listed,
/// else the raw name.
pub open spec fn selected_display(ports: Seq<PortDetails>, current: Seq<char>) -> Seq<char> {
    if exists|i: int| 0 <= i < ports.len() && (#[trigger] ports[i]).port_name@ == current {
        ports[choose|i: int|
            0 <= i < ports.len() && (#[trigger] ports[i]).port_name@ == current && forall|j: int|
                0 <= j < i ==> (#[trigger] ports[j]).port_name@ != current].display_name@
    } else {
        current
    }
}

pub fn selected_display_name(ports: &Vec<PortDetails>, current: &String) -> (r: String)
    ensures
        r@ == selected_display(ports@, current@),
{
    let mut i: usize = 0;
    while i < ports.len()
        invariant
            0 <= i <= ports.len(),
            forall|k: int| 0 <= k < i ==> (#[trigger] ports@[k]).port_name@ != current@,
        decreases ports.len() - i,
    {
        if ports[i].port_name == *current {
            proof {
                assert(0 <= i < ports@.len() && ports@[i as int].port_name@ == current@
                    && forall|jj: int| 0 <= jj < i ==> (#[trigger] ports@[jj]).port_name@ != current@);
                let c = choose|k: int|
                    0 <= k < ports@.len() && (#[trigger] ports@[k]).port_name@ == current@
                        && forall|j: int|
                        0 <= j < k ==> (#[trigger] ports@[j]).port_name@ != current@;
                if c < i {
                    assert(ports@[c].port_name@ != current@);
                } else if c > i {
                    assert(ports@[i as int].port_name@ != current@);
                }
            }
            return ports[i].display_name.clone();
        }
        i = i + 1;
    }
    current.clone()
}

} // verus!

verus! {

proof fn lemma_first_visible_from(ports: Seq<PortDetails>, ex: bool, j: int, k: int)
    requires
        0 <= j <= k < ports.len(),
        visible(ports[k], ex),
        forall|m: int| 0 <= m < j ==> !visible(#[trigger] ports[m], ex),
    ensures
        first_visible(ports, ex) matches Some(i) && 0 <= i < ports.len() && visible(ports[i], ex),
    decreases k - j,
{
    if visible(ports[j], ex) {
        assert(0 <= j < ports.len() && visible(ports[j], ex) && forall|m: int|
            0 <= m < j ==> !visible(#[trigger] ports[m], ex));
    } else {
        lemma_first_visible_from(ports, ex, j + 1, k);
    }
}

/// After a rescan or a change of the filter the selected port is either
/// none or a listed port that the filter shows; a listed, visible current
/// port is kept.
pub proof fn lemma_chosen_port_is_visible(
    ports: Seq<PortDetails>,
    current: Seq<char>,
    exclude_low_info: bool,
)
    ensures
        chosen_port(ports, current, exclude_low_info).len() == 0 || exists|i: int|
            0 <= i < ports.len() && (#[trigger] ports[i]).port_name@ == chosen_port(
                ports,
                current,
                exclude_low_info,
            ) && visible(ports[i], exclude_low_info),
        (exists|i: int|
            0 <= i < ports.len() && (#[trigger] ports[i]).port_name@ == current && visible(
                ports[i],
                exclude_low_info,
            )) ==> chosen_port(ports, current, exclude_low_info) == current,
{
    if !(exists|i: int|
        0 <= i < ports.len() && (#[trigger] ports[i]).port_name@ == current && visible(
            ports[i],
            exclude_low_info,
        )) {
        if exists|i: int| 0 <= i < ports.len() && visible(#[trigger] ports[i], exclude_low_info) {
            let k = choose|i: int| 0 <= i < ports.len() && visible(#[trigger] ports[i], exclude_low_info);
            lemma_first_visible_from(ports, exclude_low_info, 0, k);
        }
    }
}

} // verus!

verus! {

/// The "Filter MS/Low-Info" criteria, each on its own: a port is hidden when
/// it is not on USB, when its manufacturer is missing, empty or mentions
/// Microsoft in any case, when VID and PID are both 0, or when its serial
/// number or product name is missing or reads `Not available`. A USB port
/// with none of these faults is shown.
pub proof fn lemma_low_info_criteria(k: PortKind)
    ensures
        !(k is Usb) ==> low_info_or_microsoft(k),
        k matches PortKind::Usb(u) ==> {
            &&& u.manufacturer is None ==> low_info_or_microsoft(k)
            &&& (u.manufacturer matches Some(m) && m@.len() == 0) ==> low_info_or_microsoft(k)
            &&& (u.manufacturer matches Some(m) && exists|i: int|
                0 <= i && i + "microsoft"@.len() <= std_lowercase(m@).len() && #[trigger] std_lowercase(
                    m@,
                ).subrange(i, i + "microsoft"@.len()) == "microsoft"@) ==> low_info_or_microsoft(k)
            &&& (u.vid == 0 && u.pid == 0) ==> low_info_or_microsoft(k)
            &&& (u.serial_number is None || u.serial_number->0@ == "Not available"@)
                ==> low_info_or_microsoft(k)
            &&& (u.product is None || u.product->0@ == "Not available"@) ==> low_info_or_microsoft(
                k,
            )
            &&& (u.manufacturer matches Some(m) && m@.len() > 0 && !exists|i: int|
                0 <= i && i + "microsoft"@.len() <= std_lowercase(m@).len() && #[trigger] std_lowercase(
                    m@,
                ).subrange(i, i + "microsoft"@.len()) == "microsoft"@) && !(u.vid == 0 && u.pid == 0)
                && (u.serial_number matches Some(sn) && sn@ != "Not available"@) && (
            u.product matches Some(pr) && pr@ != "Not available"@) ==> !low_info_or_microsoft(k)
        },
{
}

/// The display name is `PORT_Name` with the trimmed product name when that
/// is neither blank nor `not available` in any case; otherwise with the
/// trimmed manufacturer under the same condition; otherwise the port name
/// alone. Ports not on USB show their name alone.
pub proof fn lemma_display_name_rule(port_name: Seq<char>, k: PortKind)
    ensures
        !(k is Usb) ==> display_name(port_name, k) == port_name,
        k matches PortKind::Usb(u) ==> {
            &&& (u.product matches Some(p) && trim(p@).len() > 0 && std_lowercase(trim(p@))
                != "not available"@) ==> display_name(port_name, k) == port_name + "_"@ + trim(
                u.product->0@,
            )
            &&& (!(u.product matches Some(p) && trim(p@).len() > 0 && std_lowercase(trim(p@))
                != "not available"@) && (u.manufacturer matches Some(m) && trim(m@).len() > 0
                && std_lowercase(trim(m@)) != "not available"@)) ==> display_name(port_name, k)
                == port_name + "_"@ + trim(u.manufacturer->0@)
            &&& (!(u.product matches Some(p) && trim(p@).len() > 0 && std_lowercase(trim(p@))
                != "not available"@) && !(u.manufacturer matches Some(m) && trim(m@).len() > 0
                && std_lowercase(trim(m@)) != "not available"@)) ==> display_name(port_name, k)
                == port_name
        },
{
}

/// The port chosen after a rescan or a change of the filter: the current
/// one when some listed port carries its name and the filter shows it;
/// otherwise the first listed port the filter shows, whatever the current
/// name was (empty or not); the empty name only when the filter shows no
/// listed port.
pub proof fn lemma_choose_port_rule(
    ports: Seq<PortDetails>,
    current: Seq<char>,
    exclude_low_info: bool,
    i: int,
)
    ensures
        (0 <= i < ports.len() && ports[i].port_name@ == current && (!exclude_low_info
            || !ports[i].is_low_info_or_microsoft)) ==> chosen_port(ports, current, exclude_low_info)
            == current,
        (0 <= i < ports.len() && (!exclude_low_info || !ports[i].is_low_info_or_microsoft)
            && (forall|j: int|
            0 <= j < i ==> !(!exclude_low_info || !(#[trigger] ports[j]).is_low_info_or_microsoft))
            && (forall|j: int|
            0 <= j < ports.len() ==> !((#[trigger] ports[j]).port_name@ == current && (
            !exclude_low_info || !ports[j].is_low_info_or_microsoft)))) ==> chosen_port(
            ports,
            current,
            exclude_low_info,
        ) == ports[i].port_name@,
        (forall|j: int|
            0 <= j < ports.len() ==> !(!exclude_low_info
                || !(#[trigger] ports[j]).is_low_info_or_microsoft)) ==> chosen_port(
            ports,
            current,
            exclude_low_info,
        ) == Seq::<char>::empty(),
{
    if 0 <= i < ports.len() && ports[i].port_name@ == current && (!exclude_low_info
        || !ports[i].is_low_info_or_microsoft) {
        assert(visible(ports[i], exclude_low_info));
    }
    if 0 <= i < ports.len() && (!exclude_low_info || !ports[i].is_low_info_or_microsoft) && (forall|
        j: int,
    |
        0 <= j < i ==> !(!exclude_low_info || !(#[trigger] ports[j]).is_low_info_or_microsoft)) && (
    forall|j: int|
        0 <= j < ports.len() ==> !((#[trigger] ports[j]).port_name@ == current && (
        !exclude_low_info || !ports[j].is_low_info_or_microsoft))) {
        assert(visible(ports[i], exclude_low_info));
        assert forall|j: int| 0 <= j < i implies !visible(#[trigger] ports[j], exclude_low_info) by {
        }
        lemma_first_visible_from(ports, exclude_low_info, 0, i);
        let c = first_visible(ports, exclude_low_info)->0;
        assert(visible(ports[c], exclude_low_info));
        if c < i {
            assert(!visible(ports[c], exclude_low_info));
        }
        if c > i {
            assert(!visible(ports[i], exclude_low_info));
        }
        assert(c == i);
    }
}

} // verus!

verus! {

/// The selector shows, for the selected port, the display name of the first
/// listed port with that name, or the bare name when none is listed.
pub proof fn lemma_selected_display_rule(ports: Seq<PortDetails>, current: Seq<char>, i: int)
    ensures
        (0 <= i < ports.len() && ports[i].port_name@ == current && forall|j: int|
            0 <= j < i ==> (#[trigger] ports[j]).port_name@ != current) ==> selected_display(
            ports,
            current,
        ) == ports[i].display_name@,
        (forall|j: int| 0 <= j < ports.len() ==> (#[trigger] ports[j]).port_name@ != current)
            ==> selected_display(ports, current) == current,
{
    if 0 <= i < ports.len() && ports[i].port_name@ == current && forall|j: int|
        0 <= j < i ==> (#[trigger] ports[j]).port_name@ != current {
        let c = choose|k: int|
            0 <= k < ports.len() && (#[trigger] ports[k]).port_name@ == current && forall|j: int|
                0 <= j < k ==> (#[trigger] ports[j]).port_name@ != current;
        assert(0 <= i < ports.len() && ports[i].port_name@ == current && forall|j: int|
            0 <= j < i ==> (#[trigger] ports[j]).port_name@ != current);
        if c < i {
            assert(ports[c].port_name@ != current);
        }
        if c > i {
            assert(ports[i].port_name@ != current);
        }
    }
}

proof fn lemma_trim_start_cut(s: Seq<char>) -> (a: int)
    ensures
        0 <= a <= s.len(),
        trim_start(s) == s.skip(a),
        forall|k: int| 0 <= k < a ==> is_ws(#[trigger] s[k]),
        trim_start(s).len() > 0 ==> !is_ws(trim_start(s)[0]),
    decreases s.len(),
{
    if s.len() > 0 && is_ws(s[0]) {
        let a1 = lemma_trim_start_cut(s.drop_first());
        assert(s.drop_first().skip(a1) =~= s.skip(a1 + 1));
        assert forall|k: int| 0 <= k < a1 + 1 implies is_ws(#[trigger] s[k]) by {
            if k > 0 {
                assert(s[k] == s.drop_first()[k - 1]);
            }
        }
        a1 + 1
    } else {
        assert(s.skip(0) =~= s);
        0
    }
}

proof fn lemma_trim_end_cut(s: Seq<char>) -> (b: int)
    ensures
        0 <= b <= s.len(),
        trim_end(s) == s.take(b),
        forall|k: int| b <= k < s.len() ==> is_ws(#[trigger] s[k]),
        trim_end(s).len() > 0 ==> !is_ws(trim_end(s).last()),
    decreases s.len(),
{
    if s.len() > 0 && is_ws(s.last()) {
        let b1 = lemma_trim_end_cut(s.drop_last());
        assert(s.drop_last().take(b1) =~= s.take(b1));
        assert forall|k: int| b1 <= k < s.len() implies is_ws(#[trigger] s[k]) by {
            if k < s.len() - 1 {
                assert(s[k] == s.drop_last()[k]);
            }
        }
        b1
    } else {
        assert(s.take(s.len() as int) =~= s);
        s.len() as int
    }
}

/// `trim` removes exactly the whitespace at both ends: the result is the
/// part of the text between the returned positions, everything cut away is
/// whitespace, and a non-empty result neither starts nor ends with it.
pub proof fn lemma_trim_rule(s: Seq<char>) -> (cut: (int, int))
    ensures
        0 <= cut.0 <= cut.1 <= s.len(),
        trim(s) == s.subrange(cut.0, cut.1),
        forall|k: int| 0 <= k < cut.0 ==> is_ws(#[trigger] s[k]),
        forall|k: int| cut.1 <= k < s.len() ==> is_ws(#[trigger] s[k]),
        trim(s).len() > 0 ==> !is_ws(trim(s)[0]) && !is_ws(trim(s).last()),
{
    let a = lemma_trim_start_cut(s);
    let t = trim_start(s);
    let b = lemma_trim_end_cut(t);
    assert(t.take(b) =~= s.subrange(a, a + b));
    assert forall|k: int| a + b <= k < s.len() implies is_ws(#[trigger] s[k]) by {
        assert(s[k] == t[k - a]);
    }
    if trim(s).len() > 0 {
        assert(trim(s)[0] == t[0]);
    }
    (a, a + b)
}

} // verus!
