//! The instrument behind its serial port: which port it is, what it is asked
//! before a scan, and how its short answers are read.
use vstd::prelude::*;

use crate::scan::{ReadFault, NANOSECONDS_PER_MILLISECOND};
use crate::text;

verus! {

pub const DEFAULT_BAUD: u32 = 921_600;

pub const FTDI_VID: u16 = 0x0403;

pub const FT230X_PID: u16 = 0x6015;

/// How long one read waits.
pub const READ_SLICE_MS: u64 = 100;

/// Where the system lists its serial ports by their stable names.
pub const BY_ID_DIRECTORY: &'static str = "/dev/serial/by-id/";

/// What the stable name of the instrument's port holds.
pub const BY_ID_MARK: &'static str = "FTDI_FT230X_Basic_UART";

/// How the serial port is used.
#[derive(Clone, Debug)]
pub struct DeviceConfig {
    pub port: String,
    pub baud: u32,
    pub read_slice_ms: u64,
}

/// The fixed settings of the serial port `port`.
pub fn to_device_config(port: &str) -> (config: DeviceConfig)
    ensures
        config.port@ == port@,
        config.baud == DEFAULT_BAUD,
        config.read_slice_ms == READ_SLICE_MS,
{
    let mut name: String = String::new();
    name.append(port);
    assert(name@ =~= port@);
    DeviceConfig { port: name, baud: DEFAULT_BAUD, read_slice_ms: READ_SLICE_MS }
}

// ---------------------------------------------------------------------------
// Ports
// ---------------------------------------------------------------------------
/// A serial port that the system found. Only a USB port has identifiers.
#[derive(Debug)]
pub struct PortEntry {
    pub name: String,
    pub usb: Option<UsbIdentity>,
}

#[derive(Clone, Copy, Debug, PartialEq, Eq, Structural)]
pub struct UsbIdentity {
    pub vid: u16,
    pub pid: u16,
}

/// `left` comes before `right` in the order of characters, or is the same.
pub open spec fn in_order(left: Seq<char>, right: Seq<char>) -> bool
    decreases left.len(),
{
    if left.len() == 0 {
        true
    } else if right.len() == 0 {
        false
    } else if left[0] == right[0] {
        in_order(left.drop_first(), right.drop_first())
    } else {
        left[0] as int <= right[0] as int
    }
}

/// `name` put into its place among `names`, which are in order.
pub open spec fn inserted(names: Seq<Seq<char>>, name: Seq<char>) -> Seq<Seq<char>>
    decreases names.len(),
{
    if names.len() == 0 || in_order(names.last(), name) {
        names.push(name)
    } else {
        inserted(names.drop_last(), name).push(names.last())
    }
}

/// The names in order.
pub open spec fn ordered(names: Seq<Seq<char>>) -> Seq<Seq<char>>
    decreases names.len(),
{
    if names.len() == 0 {
        Seq::empty()
    } else {
        inserted(ordered(names.drop_last()), names.last())
    }
}

/// The paths of those stable names that are the instrument's.
pub open spec fn by_id_paths(names: Seq<Seq<char>>) -> Seq<Seq<char>>
    decreases names.len(),
{
    if names.len() == 0 {
        Seq::empty()
    } else if text::occurs(names.last(), BY_ID_MARK@) {
        by_id_paths(names.drop_last()).push(BY_ID_DIRECTORY@ + names.last())
    } else {
        by_id_paths(names.drop_last())
    }
}

pub open spec fn is_instrument(entry: PortEntry) -> bool {
    entry.usb == Some(UsbIdentity { vid: FTDI_VID, pid: FT230X_PID })
}

/// The names of those ports that are the instrument's.
pub open spec fn usb_names(entries: Seq<PortEntry>) -> Seq<Seq<char>>
    decreases entries.len(),
{
    if entries.len() == 0 {
        Seq::empty()
    } else if is_instrument(entries.last()) {
        usb_names(entries.drop_last()).push(entries.last().name@)
    } else {
        usb_names(entries.drop_last())
    }
}

/// The port among the stable names: the only one that is the instrument's,
/// none, or an error if there are several.
pub open spec fn by_id_choice(names: Seq<Seq<char>>) -> Result<Option<Seq<char>>, Seq<char>> {
    let found = ordered(by_id_paths(names));
    if found.len() == 0 {
        Ok(None)
    } else if found.len() == 1 {
        Ok(Some(found[0]))
    } else {
        Err(
            "multiple FT230X devices found ("@ + text::join(found, ", "@)
                + "); select one with --port"@,
        )
    }
}

/// The only port that is the instrument's.
pub open spec fn usb_choice(entries: Seq<PortEntry>) -> Result<Seq<char>, Seq<char>> {
    let found = ordered(usb_names(entries));
    if found.len() == 0 {
        Err("no miniVNA FT230X serial port found; connect it or pass --port explicitly"@)
    } else if found.len() == 1 {
        Ok(found[0])
    } else {
        Err(
            "multiple FT230X ports found ("@ + text::join(found, ", "@)
                + "); select one with --port"@,
        )
    }
}

/// The port to use. A port that was named is taken as it is; `auto` looks at
/// the stable names first, and at the USB ports if they tell nothing.
pub open spec fn port_choice(
    requested: Seq<char>,
    names: Seq<Seq<char>>,
    entries: Seq<PortEntry>,
) -> Result<Seq<char>, Seq<char>> {
    if requested != "auto"@ {
        Ok(requested)
    } else {
        match by_id_choice(names) {
            Err(message) => Err(message),
            Ok(Some(path)) => Ok(path),
            Ok(None) => usb_choice(entries),
        }
    }
}

fn precedes(left: &[char], right: &[char]) -> (answer: bool)
    ensures
        answer == in_order(left@, right@),
{
    let mut i: usize = 0;
    proof {
        assert(left@.skip(0) =~= left@);
        assert(right@.skip(0) =~= right@);
    }
    while i < left.len() && i < right.len()
        invariant
            i <= left.len(),
            i <= right.len(),
            in_order(left@, right@) == in_order(left@.skip(i as int), right@.skip(i as int)),
        decreases left.len() - i,
    {
        let ghost l = left@.skip(i as int);
        let ghost r = right@.skip(i as int);
        if left[i] != right[i] {
            return left[i] <= right[i];
        }
        proof {
            assert(l.drop_first() =~= left@.skip(i + 1));
            assert(r.drop_first() =~= right@.skip(i + 1));
        }
        i = i + 1;
    }
    i == left.len()
}

proof fn lemma_insertion_split(names: Seq<Seq<char>>, name: Seq<char>, i: int)
    requires
        0 <= i <= names.len(),
        forall|k: int| i <= k < names.len() ==> !in_order(#[trigger] names[k], name),
        i > 0 ==> in_order(names[i - 1], name),
    ensures
        inserted(names, name) == names.insert(i, name),
    decreases names.len(),
{
    if i == names.len() {
        assert(names.insert(i, name) =~= names.push(name));
    } else {
        let front = names.drop_last();
        assert(!in_order(names[names.len() - 1], name));
        assert forall|k: int| i <= k < front.len() implies !in_order(#[trigger] front[k], name) by {
            assert(front[k] == names[k]);
        }
        lemma_insertion_split(front, name, i);
        assert(names.insert(i, name) =~= front.insert(i, name).push(names.last()));
    }
}

fn insert_ordered(names: &mut Vec<String>, name: String)
    ensures
        text::views(final(names)@) == inserted(text::views(old(names)@), name@),
{
    let chars: Vec<char> = text::chars_of(name.as_str());
    let mut i: usize = names.len();
    let ghost before = text::views(names@);
    while i > 0
        invariant
            *names == *old(names),
            before == text::views(names@),
            chars@ == name@,
            i <= names.len(),
            forall|k: int| i <= k < names@.len() ==> !in_order(#[trigger] before[k], name@),
        ensures
            *names == *old(names),
            i <= names.len(),
            forall|k: int| i <= k < names@.len() ==> !in_order(#[trigger] before[k], name@),
            i > 0 ==> in_order(before[i - 1], name@),
        decreases i,
    {
        let other: Vec<char> = text::chars_of(names[i - 1].as_str());
        assert(other@ == before[i - 1]);
        if precedes(other.as_slice(), chars.as_slice()) {
            break;
        }
        i = i - 1;
    }
    proof {
        lemma_insertion_split(before, name@, i as int);
    }
    let ghost shown = name@;
    names.insert(i, name);
    assert(text::views(names@) =~= before.insert(i as int, shown));
}

/// The error that several ports were found.
fn several(kind: &str, found: &Vec<String>) -> (message: String)
    ensures
        message@ == "multiple FT230X "@ + kind@ + " found ("@ + text::join(
            text::views(found@),
            ", "@,
        ) + "); select one with --port"@,
{
    let mut out: String = String::new();
    out.append("multiple FT230X ");
    out.append(kind);
    out.append(" found (");
    text::push_joined(&mut out, found, ", ");
    out.append("); select one with --port");
    assert(out@ =~= "multiple FT230X "@ + kind@ + " found ("@ + text::join(
        text::views(found@),
        ", "@,
    ) + "); select one with --port"@);
    out
}

/// The port among the stable names.
pub fn choose_by_id(names: &Vec<String>) -> (port: Result<Option<String>, String>)
    ensures
        match (by_id_choice(text::views(names@)), port) {
            (Ok(Some(expected)), Ok(Some(port))) => port@ == expected,
            (Ok(None), Ok(None)) => true,
            (Err(expected), Err(message)) => message@ == expected,
            _ => false,
        },
{
    let ghost all = text::views(names@);
    let mut found: Vec<String> = Vec::new();
    let mut i: usize = 0;
    proof {
        assert(all.take(0) =~= Seq::empty());
        assert(text::views(found@) =~= Seq::empty());
    }
    while i < names.len()
        invariant
            all == text::views(names@),
            i <= names.len(),
            text::views(found@) == ordered(by_id_paths(all.take(i as int))),
        decreases names.len() - i,
    {
        let chars: Vec<char> = text::chars_of(names[i].as_str());
        proof {
            assert(all.take(i + 1).drop_last() =~= all.take(i as int));
            assert(all.take(i + 1).last() == names@[i as int]@);
        }
        if text::includes(chars.as_slice(), BY_ID_MARK) {
            let mut path: String = String::new();
            path.append(BY_ID_DIRECTORY);
            path.append(names[i].as_str());
            proof {
                assert(path@ =~= BY_ID_DIRECTORY@ + names@[i as int]@);
                let paths = by_id_paths(all.take(i as int));
                assert(paths.push(path@).drop_last() =~= paths);
            }
            insert_ordered(&mut found, path);
        }
        i = i + 1;
    }
    proof {
        assert(all.take(i as int) =~= all);
        assert(text::views(found@).len() == found@.len());
    }
    if found.len() == 0 {
        return Ok(None);
    }
    if found.len() == 1 {
        let only: String = text::copy_of(found[0].as_str());
        assert(text::views(found@)[0] == only@);
        return Ok(Some(only));
    }
    let message: String = several("devices", &found);
    proof {
        reveal_strlit("multiple FT230X devices found (");
        reveal_strlit("multiple FT230X ");
        reveal_strlit("devices");
        reveal_strlit(" found (");
        assert("multiple FT230X "@ + "devices"@ + " found ("@
            =~= "multiple FT230X devices found ("@);
    }
    Err(message)
}

/// The only USB port that is the instrument's.
pub fn choose_usb(entries: &Vec<PortEntry>) -> (port: Result<String, String>)
    ensures
        match (usb_choice(entries@), port) {
            (Ok(expected), Ok(port)) => port@ == expected,
            (Err(expected), Err(message)) => message@ == expected,
            _ => false,
        },
{
    let mut found: Vec<String> = Vec::new();
    let mut i: usize = 0;
    proof {
        assert(entries@.take(0) =~= Seq::empty());
        assert(text::views(found@) =~= Seq::empty());
    }
    while i < entries.len()
        invariant
            i <= entries.len(),
            text::views(found@) == ordered(usb_names(entries@.take(i as int))),
        decreases entries.len() - i,
    {
        proof {
            assert(entries@.take(i + 1).drop_last() =~= entries@.take(i as int));
        }
        let matching: bool = match entries[i].usb {
            Some(usb) => usb.vid == FTDI_VID && usb.pid == FT230X_PID,
            None => false,
        };
        if matching {
            let name: String = text::copy_of(entries[i].name.as_str());
            proof {
                let names = usb_names(entries@.take(i as int));
                assert(names.push(name@).drop_last() =~= names);
            }
            insert_ordered(&mut found, name);
        }
        i = i + 1;
    }
    proof {
        assert(entries@.take(i as int) =~= entries@);
        assert(text::views(found@).len() == found@.len());
    }
    if found.len() == 0 {
        return Err(
            text::copy_of(
                "no miniVNA FT230X serial port found; connect it or pass --port explicitly",
            ),
        );
    }
    if found.len() == 1 {
        let only: String = text::copy_of(found[0].as_str());
        assert(text::views(found@)[0] == only@);
        return Ok(only);
    }
    let message: String = several("ports", &found);
    proof {
        reveal_strlit("multiple FT230X ports found (");
        reveal_strlit("multiple FT230X ");
        reveal_strlit("ports");
        reveal_strlit(" found (");
        assert("multiple FT230X "@ + "ports"@ + " found ("@ =~= "multiple FT230X ports found ("@);
    }
    Err(message)
}

/// Whether the port must be looked for.
pub fn is_automatic(requested: &str) -> (answer: bool)
    ensures
        answer == (requested@ == "auto"@),
{
    text::equal(requested, "auto")
}

/// The port to use, given what the system lists.
pub fn resolve_port(requested: &str, names: &Vec<String>, entries: &Vec<PortEntry>) -> (port:
    Result<String, String>)
    ensures
        match (port_choice(requested@, text::views(names@), entries@), port) {
            (Ok(expected), Ok(port)) => port@ == expected,
            (Err(expected), Err(message)) => message@ == expected,
            _ => false,
        },
{
    if !is_automatic(requested) {
        return Ok(text::copy_of(requested));
    }
    match choose_by_id(names) {
        Err(message) => Err(message),
        Ok(Some(path)) => Ok(path),
        Ok(None) => choose_usb(entries),
    }
}

// ---------------------------------------------------------------------------
// Reading short answers
// ---------------------------------------------------------------------------
impl ReadFault {
    /// The read may be tried again.
    pub open spec fn passing(self) -> bool {
        self != ReadFault::Other
    }

    pub fn is_passing(self) -> (answer: bool)
        ensures
            answer == self.passing(),
    {
        match self {
            ReadFault::Other => false,
            _ => true,
        }
    }
}

/// What one read brought while the instrument should have been quiet.
#[derive(Clone, Copy, Debug, PartialEq, Eq, Structural)]
pub enum QuietRead {
    Bytes { count: usize },
    Fault(ReadFault),
}

/// What to do while the instrument should be quiet.
#[derive(Clone, Copy, Debug, PartialEq, Eq, Structural)]
pub enum QuietAction {
    Read,
    /// The window is over and nothing arrived.
    Quiet,
    /// Something arrived that nobody asked for.
    Refuse,
    /// The port cannot be read.
    Fail,
}

/// Whatever arrives is refused, however late, and a fault that does not pass
/// fails. Short of that the input is watched until the window is over.
pub open spec fn quiet_action(
    last: Option<QuietRead>,
    elapsed_ns: u128,
    window_ns: u128,
) -> QuietAction {
    match last {
        Some(QuietRead::Bytes { count }) if count > 0 => QuietAction::Refuse,
        Some(QuietRead::Fault(fault)) if !fault.passing() => QuietAction::Fail,
        _ => if elapsed_ns >= window_ns {
            QuietAction::Quiet
        } else {
            QuietAction::Read
        },
    }
}

/// Decides what to do after the last read, if there was one.
pub fn quiet_next(last: Option<QuietRead>, elapsed_ns: u128, window_ns: u128) -> (action:
    QuietAction)
    ensures
        action == quiet_action(last, elapsed_ns, window_ns),
{
    match last {
        Some(QuietRead::Bytes { count }) if count > 0 => return QuietAction::Refuse,
        Some(QuietRead::Fault(fault)) if !fault.is_passing() => return QuietAction::Fail,
        _ => {},
    }
    if elapsed_ns >= window_ns {
        QuietAction::Quiet
    } else {
        QuietAction::Read
    }
}

/// What the instrument measures of itself.
#[derive(Clone, Copy, Debug, PartialEq, Eq, Structural)]
pub enum Metric {
    /// In tenths of a degree Celsius.
    Temperature,
    /// In units of 6/1024 volt.
    Supply,
}

impl Metric {
    pub open spec fn text(self) -> Seq<char> {
        match self {
            Metric::Temperature => "temperature"@,
            Metric::Supply => "supply"@,
        }
    }

    pub open spec fn command_bytes(self) -> Seq<u8> {
        match self {
            Metric::Temperature => seq![49u8, 48, 13],
            Metric::Supply => seq![56u8, 13],
        }
    }

    pub fn name(self) -> (name: &'static str)
        ensures
            name@ == self.text(),
    {
        match self {
            Metric::Temperature => "temperature",
            Metric::Supply => "supply",
        }
    }

    /// What is sent to ask for the value.
    pub fn command(self) -> (command: Vec<u8>)
        ensures
            command@ == self.command_bytes(),
    {
        let mut command: Vec<u8> = Vec::new();
        match self {
            Metric::Temperature => {
                command.push(49);
                command.push(48);
            },
            Metric::Supply => command.push(56),
        }
        command.push(13);
        assert(command@ =~= self.command_bytes());
        command
    }
}

/// The readings before a scan, as the instrument sends them.
#[derive(Clone, Copy, Debug, PartialEq, Eq, Structural)]
pub struct DirectReadings {
    pub temperature_tenths: u16,
    pub supply_counts: u16,
}

/// What to do about a value that was asked for.
#[derive(Clone, Copy, Debug, PartialEq, Eq, Structural)]
pub enum QueryAction {
    Read { max: usize },
    Done(u16),
    TimedOut,
    /// The port cannot be read.
    Fail,
}

/// A value is complete with two bytes, the low one first. Until then it is
/// read on, as long as there is time and the last read did not fail for good.
pub open spec fn query_action(
    response: Seq<u8>,
    fault: Option<ReadFault>,
    elapsed_ns: u128,
    timeout_ns: u128,
) -> QueryAction {
    if fault matches Some(fault) && !fault.passing() {
        QueryAction::Fail
    } else if response.len() >= 2 {
        QueryAction::Done((response[0] + response[1] * 0x100) as u16)
    } else if elapsed_ns >= timeout_ns {
        QueryAction::TimedOut
    } else {
        QueryAction::Read { max: (2 - response.len()) as usize }
    }
}

/// Decides what to do once `response` has arrived. `fault` is that of the last
/// read, if it had one.
pub fn query_next(
    response: &Vec<u8>,
    fault: Option<ReadFault>,
    elapsed_ns: u128,
    timeout_ns: u128,
) -> (action: QueryAction)
    ensures
        action == query_action(response@, fault, elapsed_ns, timeout_ns),
{
    if let Some(fault) = fault {
        if !fault.is_passing() {
            return QueryAction::Fail;
        }
    }
    if response.len() >= 2 {
        return QueryAction::Done(response[0] as u16 + response[1] as u16 * 0x100);
    }
    if elapsed_ns >= timeout_ns {
        return QueryAction::TimedOut;
    }
    QueryAction::Read { max: 2 - response.len() }
}

/// The error that a value did not arrive in time.
pub open spec fn query_timeout_text(metric: Metric, timeout_ns: u128, received: usize) -> Seq<char> {
    metric.text() + " query timed out after "@ + text::decimal(
        (timeout_ns / NANOSECONDS_PER_MILLISECOND) as nat,
    ) + " ms ("@ + text::decimal(received as nat) + "/2 bytes)"@
}

pub fn query_timeout_message(metric: Metric, timeout_ns: u128, received: usize) -> (message: String)
    ensures
        message@ == query_timeout_text(metric, timeout_ns, received),
{
    let mut out: String = String::new();
    out.append(metric.name());
    out.append(" query timed out after ");
    text::push_decimal(&mut out, timeout_ns / NANOSECONDS_PER_MILLISECOND);
    out.append(" ms (");
    text::push_decimal(&mut out, received as u128);
    out.append("/2 bytes)");
    assert(out@ =~= metric.text() + " query timed out after "@ + text::decimal(
        (timeout_ns / NANOSECONDS_PER_MILLISECOND) as nat,
    ) + " ms ("@ + text::decimal(received as nat) + "/2 bytes)"@);
    out
}

/// The bytes in hexadecimal, with a space between each two.
pub open spec fn hex_text(bytes: Seq<u8>) -> Seq<char>
    decreases bytes.len(),
{
    if bytes.len() == 0 {
        Seq::empty()
    } else if bytes.len() == 1 {
        text::hex(bytes[0] as nat, 2)
    } else {
        hex_text(bytes.drop_last()) + seq![' '] + text::hex(bytes.last() as nat, 2)
    }
}

fn push_hex_bytes(out: &mut String, bytes: &[u8], count: usize)
    requires
        count <= bytes@.len(),
    ensures
        final(out)@ == old(out)@ + hex_text(bytes@.take(count as int)),
{
    let mut i: usize = 0;
    let ghost start = out@;
    proof {
        assert(out@ + hex_text(bytes@.take(0)) =~= out@);
    }
    while i < count
        invariant
            i <= count <= bytes@.len(),
            out@ == start + hex_text(bytes@.take(i as int)),
        decreases count - i,
    {
        proof {
            assert(bytes@.take(i + 1).drop_last() =~= bytes@.take(i as int));
        }
        let ghost before = out@;
        if i > 0 {
            out.push(' ');
        }
        text::push_hex(out, bytes[i] as u64, 2);
        i = i + 1;
        assert(out@ =~= start + hex_text(bytes@.take(i as int)));
    }
}

/// The error that `bytes` arrived while the instrument should have been quiet.
pub open spec fn unsolicited_text(bytes: Seq<u8>) -> Seq<char> {
    "received "@ + text::decimal(bytes.len())
        + " unsolicited byte(s) while waiting for an idle device (first bytes: "@ + hex_text(
        bytes.take(
            if bytes.len() < 8 {
                bytes.len() as int
            } else {
                8
            },
        ),
    ) + "); an older scan is still streaming"@
}

pub fn unsolicited_message(bytes: &[u8]) -> (message: String)
    ensures
        message@ == unsolicited_text(bytes@),
{
    let shown: usize = if bytes.len() < 8 {
        bytes.len()
    } else {
        8
    };
    let mut out: String = String::new();
    out.append("received ");
    text::push_decimal(&mut out, bytes.len() as u128);
    out.append(" unsolicited byte(s) while waiting for an idle device (first bytes: ");
    push_hex_bytes(&mut out, bytes, shown);
    out.append("); an older scan is still streaming");
    assert(out@ =~= "received "@ + text::decimal(bytes@.len())
        + " unsolicited byte(s) while waiting for an idle device (first bytes: "@ + hex_text(
        bytes@.take(shown as int),
    ) + "); an older scan is still streaming"@);
    out
}

/// A byte that ends a line.
pub open spec fn ends_line(byte: u8) -> bool {
    byte == 13 || byte == 10
}

/// What one read of a single byte brought.
#[derive(Clone, Copy, Debug, PartialEq, Eq, Structural)]
pub enum LineRead {
    Byte(u8),
    Nothing,
    Fault(ReadFault),
}

/// What to do about a line that is being read.
#[derive(Clone, Copy, Debug, PartialEq, Eq, Structural)]
pub enum LineAction {
    /// Read one more byte.
    Read,
    Complete,
    TimedOut,
    /// The port cannot be read.
    Fail,
}

/// The part of a line that has arrived, with what the last read brought.
pub open spec fn line_after(bytes: Seq<u8>, last: LineRead) -> Seq<u8> {
    match last {
        LineRead::Byte(byte) if !ends_line(byte) => bytes.push(byte),
        _ => bytes,
    }
}

/// A line end completes a line that is not empty, however late. A fault that
/// does not pass fails. Short of that the line is read on, as long as there is
/// time.
pub open spec fn line_action(
    bytes: Seq<u8>,
    last: LineRead,
    elapsed_ns: u128,
    timeout_ns: u128,
) -> LineAction {
    match last {
        LineRead::Byte(byte) if ends_line(byte) && bytes.len() > 0 => LineAction::Complete,
        LineRead::Fault(fault) if !fault.passing() => LineAction::Fail,
        _ => if elapsed_ns >= timeout_ns {
            LineAction::TimedOut
        } else {
            LineAction::Read
        },
    }
}

/// A line as far as it has arrived. Line ends before its first byte do not
/// count.
#[derive(Debug)]
pub struct LineReader {
    pub bytes: Vec<u8>,
}

impl LineReader {
    pub fn new() -> (reader: LineReader)
        ensures
            reader.bytes@.len() == 0,
    {
        LineReader { bytes: Vec::new() }
    }

    /// Takes in what the last read brought and says what to do next. Before the
    /// first read that is nothing.
    pub fn next(&mut self, last: LineRead, elapsed_ns: u128, timeout_ns: u128) -> (action:
        LineAction)
        ensures
            final(self).bytes@ == line_after(old(self).bytes@, last),
            action == line_action(old(self).bytes@, last, elapsed_ns, timeout_ns),
    {
        match last {
            LineRead::Byte(byte) => {
                if byte == 13 || byte == 10 {
                    if self.bytes.len() > 0 {
                        return LineAction::Complete;
                    }
                } else {
                    self.bytes.push(byte);
                }
            },
            LineRead::Nothing => {},
            LineRead::Fault(fault) => {
                if !fault.is_passing() {
                    return LineAction::Fail;
                }
            },
        }
        if elapsed_ns >= timeout_ns {
            LineAction::TimedOut
        } else {
            LineAction::Read
        }
    }

    /// The line as text, or the error that it is none.
    pub fn finish(&self, description: &str) -> (line: Result<String, String>)
        ensures
            match line {
                Ok(line) => vstd::utf8::valid_utf8(self.bytes@) && line@
                    == vstd::utf8::decode_utf8(self.bytes@),
                Err(message) => !vstd::utf8::valid_utf8(self.bytes@) && message@ == description@
                    + " was not valid UTF-8: "@ + hex_text(self.bytes@),
            },
    {
        match text::utf8_text(&self.bytes) {
            Some(line) => Ok(line),
            None => {
                let mut out: String = String::new();
                out.append(description);
                out.append(" was not valid UTF-8: ");
                push_hex_bytes(&mut out, self.bytes.as_slice(), self.bytes.len());
                proof {
                    assert(self.bytes@.take(self.bytes@.len() as int) =~= self.bytes@);
                    assert(out@ =~= description@ + " was not valid UTF-8: "@ + hex_text(
                        self.bytes@,
                    ));
                }
                Err(out)
            },
        }
    }
}

/// The error that a line did not arrive in time.
pub open spec fn line_timeout_text(timeout_ns: u128, description: Seq<char>) -> Seq<char> {
    "timed out after "@ + text::decimal((timeout_ns / NANOSECONDS_PER_MILLISECOND) as nat)
        + " ms waiting for "@ + description
}

pub fn line_timeout_message(timeout_ns: u128, description: &str) -> (message: String)
    ensures
        message@ == line_timeout_text(timeout_ns, description@),
{
    let mut out: String = String::new();
    out.append("timed out after ");
    text::push_decimal(&mut out, timeout_ns / NANOSECONDS_PER_MILLISECOND);
    out.append(" ms waiting for ");
    out.append(description);
    assert(out@ =~= "timed out after "@ + text::decimal(
        (timeout_ns / NANOSECONDS_PER_MILLISECOND) as nat,
    ) + " ms waiting for "@ + description@);
    out
}

/// The line names the firmware of the instrument.
pub open spec fn names_firmware(line: Seq<char>) -> bool {
    text::starts_with(line, "FW Tiny "@)
}

pub fn is_tiny_firmware(line: &str) -> (answer: bool)
    ensures
        answer == names_firmware(line@),
{
    let chars: Vec<char> = text::chars_of(line);
    text::begins(chars.as_slice(), "FW Tiny ")
}

// ---------------------------------------------------------------------------
// Laws
// ---------------------------------------------------------------------------
/// One read while the instrument should be quiet, and the time after it.
pub struct QuietLook {
    pub read: QuietRead,
    pub elapsed_ns: u128,
}

/// The input was watched from `start_ns` on, and `looks` are the reads so far:
/// before each of them it was decided to read.
pub open spec fn watched(looks: Seq<QuietLook>, start_ns: u128, window_ns: u128) -> bool {
    &&& looks.len() > 0 ==> quiet_action(None, start_ns, window_ns) is Read
    &&& forall|i: int|
        0 <= i < looks.len() - 1 ==> quiet_action(
            Some((#[trigger] looks[i]).read),
            looks[i].elapsed_ns,
            window_ns,
        ) is Read
}

/// Something arrived.
pub open spec fn brought_bytes(read: QuietRead) -> bool {
    match read {
        QuietRead::Bytes { count } => count > 0,
        QuietRead::Fault(_) => false,
    }
}

/// Nothing arrived, and the port could be read.
pub open spec fn is_silent(read: QuietRead) -> bool {
    match read {
        QuietRead::Bytes { count } => count == 0,
        QuietRead::Fault(fault) => fault.passing(),
    }
}

/// The input counts as quiet exactly if not one of its reads brought a byte or
/// failed for good and the whole window is over. Any byte refuses it, whenever
/// it arrives, and it is watched until one of these happens.
pub proof fn law_quiet_means_that_nothing_arrived(
    looks: Seq<QuietLook>,
    start_ns: u128,
    window_ns: u128,
)
    requires
        looks.len() > 0,
        watched(looks, start_ns, window_ns),
    ensures
        ({
            let last = looks.last();
            let action = quiet_action(Some(last.read), last.elapsed_ns, window_ns);
            &&& action is Quiet <==> last.elapsed_ns >= window_ns && forall|i: int|
                0 <= i < looks.len() ==> is_silent((#[trigger] looks[i]).read)
            &&& action is Refuse <==> exists|i: int|
                0 <= i < looks.len() && brought_bytes((#[trigger] looks[i]).read)
            &&& action is Read ==> last.elapsed_ns < window_ns
        }),
{
    let last = looks.last();
    assert(last == looks[looks.len() - 1]);
    assert forall|i: int| 0 <= i < looks.len() - 1 implies is_silent((#[trigger] looks[i]).read) by {
    }
}

/// Each of the names comes before all that follow it.
pub open spec fn all_in_order(names: Seq<Seq<char>>) -> bool {
    forall|i: int, j: int|
        0 <= i <= j < names.len() ==> in_order(#[trigger] names[i], #[trigger] names[j])
}

/// Of two names one comes first.
pub proof fn law_order_is_total(left: Seq<char>, right: Seq<char>)
    ensures
        in_order(left, right) || in_order(right, left),
        in_order(left, left),
    decreases left.len(),
{
    if left.len() > 0 {
        law_order_is_total(left.drop_first(), left.drop_first());
        if right.len() > 0 && left[0] == right[0] {
            law_order_is_total(left.drop_first(), right.drop_first());
        }
    }
}

/// Of three names, the first comes before the third if it comes before the
/// second and the second before the third.
pub proof fn law_order_is_transitive(first: Seq<char>, second: Seq<char>, third: Seq<char>)
    requires
        in_order(first, second),
        in_order(second, third),
    ensures
        in_order(first, third),
    decreases first.len(),
{
    if first.len() > 0 && first[0] == second[0] && second[0] == third[0] {
        law_order_is_transitive(first.drop_first(), second.drop_first(), third.drop_first());
    }
}

proof fn lemma_inserted(names: Seq<Seq<char>>, name: Seq<char>)
    requires
        all_in_order(names),
    ensures
        all_in_order(inserted(names, name)),
        inserted(names, name).len() == names.len() + 1,
        inserted(names, name).to_multiset() == names.to_multiset().insert(name),
    decreases names.len(),
{
    broadcast use vstd::seq_lib::group_to_multiset_ensures;

    if names.len() == 0 || in_order(names.last(), name) {
        let all = names.push(name);
        assert forall|i: int, j: int| 0 <= i <= j < all.len() implies in_order(
            #[trigger] all[i],
            #[trigger] all[j],
        ) by {
            if j == names.len() {
                law_order_is_total(name, name);
                if i < names.len() {
                    assert(in_order(names[i], names[names.len() - 1]));
                    law_order_is_transitive(names[i], names.last(), name);
                }
            } else {
                assert(in_order(names[i], names[j]));
            }
        }
    } else {
        let front = names.drop_last();
        let last = names.last();
        assert forall|i: int, j: int| 0 <= i <= j < front.len() implies in_order(
            #[trigger] front[i],
            #[trigger] front[j],
        ) by {
            assert(in_order(names[i], names[j]));
        }
        lemma_inserted(front, name);
        let smaller = inserted(front, name);
        let all = smaller.push(last);
        law_order_is_total(name, last);
        assert(names =~= front.push(last));
        assert forall|k: int| 0 <= k < smaller.len() implies in_order(
            #[trigger] smaller[k],
            last,
        ) by {
            assert(smaller.to_multiset().contains(smaller[k]));
            if smaller[k] != name {
                assert(front.to_multiset().contains(smaller[k]));
                assert(front.contains(smaller[k]));
                let m = choose|m: int| 0 <= m < front.len() && front[m] == smaller[k];
                assert(in_order(names[m], names[names.len() - 1]));
            }
        }
        assert forall|i: int, j: int| 0 <= i <= j < all.len() implies in_order(
            #[trigger] all[i],
            #[trigger] all[j],
        ) by {
            if j == smaller.len() {
                law_order_is_total(last, last);
                if i < smaller.len() {
                    assert(in_order(smaller[i], last));
                }
            } else {
                assert(in_order(smaller[i], smaller[j]));
            }
        }
        assert(all.to_multiset() == smaller.to_multiset().insert(last));
        assert(names.to_multiset() == front.to_multiset().insert(last));
        assert(front.to_multiset().insert(name).insert(last) =~= front.to_multiset().insert(
            last,
        ).insert(name));
    }
}

/// The ordered names are the names, each as often as before, in order.
pub proof fn law_ordered_names(names: Seq<Seq<char>>)
    ensures
        all_in_order(ordered(names)),
        ordered(names).len() == names.len(),
        ordered(names).to_multiset() == names.to_multiset(),
    decreases names.len(),
{
    broadcast use vstd::seq_lib::group_to_multiset_ensures;

    if names.len() > 0 {
        law_ordered_names(names.drop_last());
        lemma_inserted(ordered(names.drop_last()), names.last());
        assert(names =~= names.drop_last().push(names.last()));
    } else {
        assert(names =~= Seq::empty());
        assert(ordered(names) =~= names);
    }
}

/// A port that was named is used, whatever the system lists.
pub proof fn law_named_port_is_used(
    requested: Seq<char>,
    names: Seq<Seq<char>>,
    entries: Seq<PortEntry>,
)
    requires
        requested != "auto"@,
    ensures
        port_choice(requested, names, entries) == Ok::<Seq<char>, Seq<char>>(requested),
{
}

/// A port that is chosen automatically is the only one of its kind that the
/// system lists.
pub proof fn law_automatic_port_is_unique(
    names: Seq<Seq<char>>,
    entries: Seq<PortEntry>,
    port: Seq<char>,
)
    requires
        port_choice("auto"@, names, entries) == Ok::<Seq<char>, Seq<char>>(port),
    ensures
        by_id_paths(names) == seq![port] || (by_id_paths(names).len() == 0 && usb_names(entries)
            == seq![port]),
{
    law_ordered_names(by_id_paths(names));
    law_ordered_names(usb_names(entries));
    let paths = by_id_paths(names);
    let found = usb_names(entries);
    if paths.len() == 1 {
        assert(paths.drop_last() =~= Seq::empty());
        assert(ordered(paths.drop_last()) =~= Seq::empty());
        assert(paths =~= seq![port]);
    } else {
        assert(found.drop_last() =~= Seq::empty());
        assert(ordered(found.drop_last()) =~= Seq::empty());
        assert(found =~= seq![port]);
    }
}

/// The order of names is that of a dictionary: the first character in which they
/// differ decides, and a name comes before whatever goes on from it.
pub proof fn law_order_of_a_dictionary(
    shared: Seq<char>,
    a: char,
    b: char,
    left: Seq<char>,
    right: Seq<char>,
)
    requires
        (a as int) < (b as int),
    ensures
        in_order(shared + seq![a] + left, shared + seq![b] + right),
        !in_order(shared + seq![b] + right, shared + seq![a] + left),
        in_order(shared, shared + seq![b] + right),
        !in_order(shared + seq![b] + right, shared),
    decreases shared.len(),
{
    let l = shared + seq![a] + left;
    let r = shared + seq![b] + right;
    if shared.len() > 0 {
        let tail = shared.drop_first();
        law_order_of_a_dictionary(tail, a, b, left, right);
        assert(l.drop_first() =~= tail + seq![a] + left);
        assert(r.drop_first() =~= tail + seq![b] + right);
        assert(l[0] == shared[0] && r[0] == shared[0]);
    } else {
        assert(l[0] == a && r[0] == b);
    }
}

/// The stable name is that of the instrument's port.
pub open spec fn marked(name: Seq<char>) -> bool {
    text::occurs(name, "FTDI_FT230X_Basic_UART"@)
}

/// The USB port has the identifiers of the instrument's.
pub open spec fn fitting(entry: PortEntry) -> bool {
    entry.usb matches Some(usb) && usb.vid == 0x0403 && usb.pid == 0x6015
}

proof fn lemma_by_id_paths(names: Seq<Seq<char>>)
    ensures
        by_id_paths(names).len() == 0 <==> forall|i: int|
            0 <= i < names.len() ==> !marked(#[trigger] names[i]),
        by_id_paths(names).len() >= 2 <==> exists|i: int, j: int|
            0 <= i < j < names.len() && marked(#[trigger] names[i]) && marked(#[trigger] names[j]),
        by_id_paths(names).len() == 1 ==> exists|i: int|
            0 <= i < names.len() && marked(#[trigger] names[i]) && by_id_paths(names)[0]
                == "/dev/serial/by-id/"@ + names[i],
    decreases names.len(),
{
    if names.len() > 0 {
        let front = names.drop_last();
        let n = names.len() - 1;
        lemma_by_id_paths(front);
        assert(forall|i: int| 0 <= i < n ==> front[i] == names[i]);
        assert(names.last() == names[n]);
        if by_id_paths(front).len() > 0 {
            let i = choose|i: int| 0 <= i < front.len() && marked(#[trigger] front[i]);
            assert(marked(names[i]));
        }
        if by_id_paths(front).len() >= 2 {
            let (i, j) = choose|i: int, j: int|
                0 <= i < j < front.len() && marked(#[trigger] front[i]) && marked(
                    #[trigger] front[j],
                );
            assert(marked(names[i]) && marked(names[j]));
        }
        if by_id_paths(names).len() == 1 && !marked(names[n]) {
            let i = choose|i: int|
                0 <= i < front.len() && marked(#[trigger] front[i]) && by_id_paths(front)[0]
                    == "/dev/serial/by-id/"@ + front[i];
            assert(marked(names[i]) && by_id_paths(names)[0] == "/dev/serial/by-id/"@ + names[i]);
        }
        if exists|i: int, j: int|
            0 <= i < j < names.len() && marked(#[trigger] names[i]) && marked(#[trigger] names[j]) {
            let (i, j) = choose|i: int, j: int|
                0 <= i < j < names.len() && marked(#[trigger] names[i]) && marked(
                    #[trigger] names[j],
                );
            assert(marked(front[i]));
            if j < n {
                assert(marked(front[j]));
            }
        }
    }
}

proof fn lemma_usb_names(entries: Seq<PortEntry>)
    ensures
        usb_names(entries).len() == 0 <==> forall|i: int|
            0 <= i < entries.len() ==> !fitting(#[trigger] entries[i]),
        usb_names(entries).len() >= 2 <==> exists|i: int, j: int|
            0 <= i < j < entries.len() && fitting(#[trigger] entries[i]) && fitting(
                #[trigger] entries[j],
            ),
        usb_names(entries).len() == 1 ==> exists|i: int|
            0 <= i < entries.len() && fitting(#[trigger] entries[i]) && usb_names(entries)[0]
                == entries[i].name@,
    decreases entries.len(),
{
    if entries.len() > 0 {
        let front = entries.drop_last();
        let n = entries.len() - 1;
        lemma_usb_names(front);
        assert(forall|i: int| 0 <= i < n ==> front[i] == entries[i]);
        assert(entries.last() == entries[n]);
        if usb_names(front).len() > 0 {
            let i = choose|i: int| 0 <= i < front.len() && fitting(#[trigger] front[i]);
            assert(fitting(entries[i]));
        }
        if usb_names(front).len() >= 2 {
            let (i, j) = choose|i: int, j: int|
                0 <= i < j < front.len() && fitting(#[trigger] front[i]) && fitting(
                    #[trigger] front[j],
                );
            assert(fitting(entries[i]) && fitting(entries[j]));
        }
        if usb_names(entries).len() == 1 && !fitting(entries[n]) {
            let i = choose|i: int|
                0 <= i < front.len() && fitting(#[trigger] front[i]) && usb_names(front)[0]
                    == front[i].name@;
            assert(fitting(entries[i]) && usb_names(entries)[0] == entries[i].name@);
        }
        if exists|i: int, j: int|
            0 <= i < j < entries.len() && fitting(#[trigger] entries[i]) && fitting(
                #[trigger] entries[j],
            ) {
            let (i, j) = choose|i: int, j: int|
                0 <= i < j < entries.len() && fitting(#[trigger] entries[i]) && fitting(
                    #[trigger] entries[j],
                );
            assert(fitting(front[i]));
            if j < n {
                assert(fitting(front[j]));
            }
        }
    }
}

proof fn lemma_one_ordered(names: Seq<Seq<char>>)
    ensures
        ordered(names).len() == names.len(),
        names.len() == 1 ==> ordered(names)[0] == names[0],
{
    law_ordered_names(names);
    if names.len() == 1 {
        reveal_with_fuel(ordered, 2);
        assert(ordered(names.drop_last()) =~= Seq::empty());
    }
}

/// The automatic port is the one whose stable name is the instrument's, by that
/// name. If no stable name is, it is the one USB port with the identifiers of the
/// instrument's. Two of a kind, or none of either, are refused.
pub proof fn law_automatic_port(names: Seq<Seq<char>>, entries: Seq<PortEntry>)
    ensures
        ({
            let none_marked = forall|i: int| 0 <= i < names.len() ==> !marked(#[trigger] names[i]);
            let two_marked = exists|i: int, j: int|
                0 <= i < j < names.len() && marked(#[trigger] names[i]) && marked(
                    #[trigger] names[j],
                );
            let none_fitting = forall|i: int|
                0 <= i < entries.len() ==> !fitting(#[trigger] entries[i]);
            let two_fitting = exists|i: int, j: int|
                0 <= i < j < entries.len() && fitting(#[trigger] entries[i]) && fitting(
                    #[trigger] entries[j],
                );
            match port_choice("auto"@, names, entries) {
                Ok(port) => {
                    ||| !two_marked && exists|i: int|
                        0 <= i < names.len() && marked(#[trigger] names[i]) && port
                            == "/dev/serial/by-id/"@ + names[i]
                    ||| none_marked && !two_fitting && exists|i: int|
                        0 <= i < entries.len() && fitting(#[trigger] entries[i]) && port
                            == entries[i].name@
                },
                Err(_) => two_marked || (none_marked && (none_fitting || two_fitting)),
            }
        }),
{
    lemma_by_id_paths(names);
    lemma_usb_names(entries);
    lemma_one_ordered(by_id_paths(names));
    lemma_one_ordered(usb_names(entries));
}

/// Two bytes are a value, the low one first. With fewer the rest is read, until
/// the time is over; a fault that does not pass fails at once.
pub proof fn law_short_answers(
    low: u8,
    high: u8,
    partial: Seq<u8>,
    fault: Option<ReadFault>,
    elapsed_ns: u128,
    timeout_ns: u128,
)
    requires
        partial.len() < 2,
    ensures
        fault != Some(ReadFault::Other) ==> query_action(
            seq![low, high],
            fault,
            elapsed_ns,
            timeout_ns,
        ) == QueryAction::Done((low + 256 * high) as u16),
        fault != Some(ReadFault::Other) && elapsed_ns < timeout_ns ==> (query_action(
            partial,
            fault,
            elapsed_ns,
            timeout_ns,
        ) matches QueryAction::Read { max } && partial.len() + max == 2),
        fault != Some(ReadFault::Other) && elapsed_ns >= timeout_ns ==> query_action(
            partial,
            fault,
            elapsed_ns,
            timeout_ns,
        ) is TimedOut,
        query_action(partial, Some(ReadFault::Other), elapsed_ns, timeout_ns) is Fail,
{
}

/// Bytes in hexadecimal take two digits each, with one space between each two.
pub proof fn law_bytes_in_hexadecimal(bytes: Seq<u8>, i: int)
    requires
        0 <= i < bytes.len(),
    ensures
        hex_text(bytes).len() == 3 * bytes.len() - 1,
        hex_text(bytes).subrange(3 * i, 3 * i + 2) == text::hex(bytes[i] as nat, 2),
        i + 1 < bytes.len() ==> hex_text(bytes)[3 * i + 2] == ' ',
    decreases bytes.len(),
{
    let all = hex_text(bytes);
    let last = text::hex(bytes.last() as nat, 2);
    lemma_hex_pair(bytes.last());
    if bytes.len() == 1 {
        assert(all == last);
        assert(all.subrange(0, 2) =~= all);
    } else {
        let front = bytes.drop_last();
        let head = hex_text(front);
        law_bytes_in_hexadecimal(front, 0);
        assert(all == head + seq![' '] + last);
        if i < front.len() {
            law_bytes_in_hexadecimal(front, i);
            assert(all.subrange(3 * i, 3 * i + 2) =~= head.subrange(3 * i, 3 * i + 2));
            if i + 1 < front.len() {
                assert(all[3 * i + 2] == head[3 * i + 2]);
            }
        } else {
            assert(all.subrange(3 * i, 3 * i + 2) =~= last);
        }
    }
}

proof fn lemma_hex_pair(byte: u8)
    ensures
        text::hex(byte as nat, 2).len() == 2,
{
    text::law_hex_digits(byte as nat, 2, 0);
}

/// What has arrived of a line after `reads`.
pub open spec fn line_received(reads: Seq<LineRead>) -> Seq<u8>
    decreases reads.len(),
{
    if reads.len() == 0 {
        Seq::empty()
    } else {
        line_after(line_received(reads.drop_last()), reads.last())
    }
}

/// Line ends before a line do not count, its bytes are kept one by one and in
/// order, and a read that brings nothing adds nothing. A line end behind at least
/// one byte completes the line.
pub proof fn law_line_is_what_arrived(
    ends: Seq<LineRead>,
    bytes: Seq<LineRead>,
    elapsed_ns: u128,
    timeout_ns: u128,
)
    requires
        forall|i: int|
            0 <= i < ends.len() ==> (#[trigger] ends[i]) == LineRead::Byte(13) || ends[i]
                == LineRead::Byte(10) || ends[i] is Nothing || ends[i] is Fault,
        forall|i: int|
            0 <= i < bytes.len() ==> ((#[trigger] bytes[i]) matches LineRead::Byte(byte) && byte
                != 13 && byte != 10),
    ensures
        line_received(ends + bytes).len() == bytes.len(),
        forall|i: int|
            0 <= i < bytes.len() ==> bytes[i] == LineRead::Byte(
                #[trigger] line_received(ends + bytes)[i],
            ),
        bytes.len() > 0 ==> line_action(
            line_received(ends + bytes),
            LineRead::Byte(13),
            elapsed_ns,
            timeout_ns,
        ) is Complete && line_action(
            line_received(ends + bytes),
            LineRead::Byte(10),
            elapsed_ns,
            timeout_ns,
        ) is Complete,
        elapsed_ns < timeout_ns ==> line_action(
            line_received(ends + bytes),
            LineRead::Nothing,
            elapsed_ns,
            timeout_ns,
        ) is Read && line_action(Seq::empty(), LineRead::Byte(10), elapsed_ns, timeout_ns) is Read
            && line_action(Seq::empty(), LineRead::Byte(13), elapsed_ns, timeout_ns) is Read,
        elapsed_ns >= timeout_ns ==> line_action(
            line_received(ends + bytes),
            LineRead::Nothing,
            elapsed_ns,
            timeout_ns,
        ) is TimedOut,
        line_action(
            line_received(ends + bytes),
            LineRead::Fault(ReadFault::Other),
            elapsed_ns,
            timeout_ns,
        ) is Fail,
    decreases ends.len() + bytes.len(),
{
    let all = ends + bytes;
    if bytes.len() > 0 {
        let front = bytes.drop_last();
        assert forall|i: int| 0 <= i < front.len() implies ((#[trigger] front[i]) matches LineRead::Byte(
            byte,
        ) && byte != 13 && byte != 10) by {
            assert(front[i] == bytes[i]);
        }
        law_line_is_what_arrived(ends, front, elapsed_ns, timeout_ns);
        assert(all.drop_last() =~= ends + front);
        assert(all.last() == bytes[bytes.len() - 1]);
        assert forall|i: int| 0 <= i < bytes.len() implies bytes[i] == LineRead::Byte(
            #[trigger] line_received(all)[i],
        ) by {
            if i < front.len() {
                assert(front[i] == LineRead::Byte(line_received(ends + front)[i]));
                assert(front[i] == bytes[i]);
            }
        }
    } else if ends.len() > 0 {
        let front = ends.drop_last();
        assert forall|i: int| 0 <= i < front.len() implies (#[trigger] front[i]) == LineRead::Byte(13)
            || front[i] == LineRead::Byte(10) || front[i] is Nothing || front[i] is Fault by {
            assert(front[i] == ends[i]);
        }
        law_line_is_what_arrived(front, bytes, elapsed_ns, timeout_ns);
        assert(all.drop_last() =~= front + bytes);
        assert(all.last() == ends[ends.len() - 1]);
    }
}

/// A timeout names its limit in milliseconds; that of a value names what has
/// arrived of its two bytes, that of a line what was waited for.
pub proof fn law_timeouts_name_their_numbers(
    metric: Metric,
    timeout_ns: u128,
    received: usize,
    description: Seq<char>,
)
    ensures
        text::numbers(query_timeout_text(metric, timeout_ns, received)) == seq![
            (timeout_ns / 1_000_000) as nat,
            received as nat,
            2,
        ],
        text::numbers(line_timeout_text(timeout_ns, description)) == seq![
            (timeout_ns / 1_000_000) as nat,
        ] + text::numbers(description),
        text::ends_with(line_timeout_text(timeout_ns, description), description),
{
    reveal_strlit("temperature");
    reveal_strlit("supply");
    reveal_strlit(" query timed out after ");
    reveal_strlit(" ms (");
    reveal_strlit("/2 bytes)");
    reveal_strlit("timed out after ");
    reveal_strlit(" ms waiting for ");
    let limit = (timeout_ns / 1_000_000) as nat;
    let a = metric.text() + " query timed out after "@;
    let c = seq!['/'];
    let d = seq![' ', 'b', 'y', 't', 'e', 's', ')'];
    assert(text::decimal(2) =~= seq!['2']);
    assert("/2 bytes)"@ =~= c + text::decimal(2) + d);
    text::lemma_three_numbers(a, limit, " ms ("@, received as nat, c, 2, d);
    text::lemma_words_hold_no_number(d, Seq::empty());
    assert(query_timeout_text(metric, timeout_ns, received) =~= a + text::decimal(limit) + " ms ("@
        + text::decimal(received as nat) + c + text::decimal(2) + d);
    let rest = " ms waiting for "@ + description;
    text::lemma_number_is_read("timed out after "@, limit, rest);
    text::lemma_words_hold_no_number(" ms waiting for "@, description);
    let line = line_timeout_text(timeout_ns, description);
    assert(line =~= "timed out after "@ + text::decimal(limit) + rest);
    assert(line.skip(line.len() - description.len()) =~= description);
}

/// Bytes that nobody asked for are counted, and the first eight of them shown.
pub proof fn law_unsolicited_bytes_are_shown(bytes: Seq<u8>, more: Seq<u8>)
    requires
        bytes.len() <= 8,
        bytes.len() < 8 ==> more.len() == 0,
    ensures
        text::numbers(unsolicited_text(bytes + more)).len() > 0,
        text::numbers(unsolicited_text(bytes + more))[0] == bytes.len() + more.len(),
        text::ends_with(
            unsolicited_text(bytes + more),
            hex_text(bytes) + "); an older scan is still streaming"@,
        ),
{
    reveal_strlit("received ");
    reveal_strlit(" unsolicited byte(s) while waiting for an idle device (first bytes: ");
    let all = bytes + more;
    assert(all.take(bytes.len() as int) =~= bytes);
    let words = " unsolicited byte(s) while waiting for an idle device (first bytes: "@;
    let ending = hex_text(bytes) + "); an older scan is still streaming"@;
    text::lemma_number_is_read("received "@, all.len(), words + ending);
    let line = unsolicited_text(all);
    assert(line =~= "received "@ + text::decimal(all.len()) + (words + ending));
    assert(line.skip(line.len() - ending.len()) =~= ending);
}

/// A line names the firmware exactly if its first eight characters do.
pub proof fn law_firmware(line: Seq<char>, version: Seq<char>)
    ensures
        names_firmware("FW Tiny "@ + version),
        names_firmware(line) <==> line.len() >= 8 && line.take(8) == "FW Tiny "@,
{
    reveal_strlit("FW Tiny ");
    text::law_starts_and_ends(line, "FW Tiny "@, version);
}

} // verus!
