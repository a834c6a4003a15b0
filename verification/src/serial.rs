use vstd::prelude::*;
use vstd::string::StringExecFns;
use crate::data::{Packet, PacketView, SerialDirection};
use vstd::utf8::{decode_utf8, valid_utf8};
use crate::framer::{framed, line_views, Framer};
use crate::store::{packet_views, text_views};
use crate::text::text_of_bytes;

verus! {

#[derive(Clone, Copy, Debug, PartialEq, Eq, Structural)]
pub enum DataBits {
    Five,
    Six,
    Seven,
    Eight,
}

#[derive(Clone, Copy, Debug, PartialEq, Eq, Structural)]
pub enum FlowControl {
    Off,
    Software,
    Hardware,
}

#[derive(Clone, Copy, Debug, PartialEq, Eq, Structural)]
pub enum Parity {
    Off,
    Odd,
    Even,
}

#[derive(Clone, Copy, Debug, PartialEq, Eq, Structural)]
pub enum StopBits {
    One,
    Two,
}

/// A serial device: its name and how to talk to it.
#[derive(Debug)]
pub struct Device {
    pub name: String,
    pub baud_rate: u32,
    pub data_bits: DataBits,
    pub flow_control: FlowControl,
    pub parity: Parity,
    pub stop_bits: StopBits,
    /// The longest that a read waits, in milliseconds.
    pub timeout_ms: u64,
}

/// What a device holds.
pub struct DeviceView {
    pub name: Seq<char>,
    pub baud_rate: u32,
    pub data_bits: DataBits,
    pub flow_control: FlowControl,
    pub parity: Parity,
    pub stop_bits: StopBits,
    pub timeout_ms: u64,
}

impl View for Device {
    type V = DeviceView;

    open spec fn view(&self) -> DeviceView {
        DeviceView {
            name: self.name@,
            baud_rate: self.baud_rate,
            data_bits: self.data_bits,
            flow_control: self.flow_control,
            parity: self.parity,
            stop_bits: self.stop_bits,
            timeout_ms: self.timeout_ms,
        }
    }
}

/// The device that stands for none: no name, 9600 baud, eight data bits, no
/// parity, one stop bit, no flow control.
pub open spec fn no_device() -> DeviceView {
    DeviceView {
        name: Seq::empty(),
        baud_rate: 9600,
        data_bits: DataBits::Eight,
        flow_control: FlowControl::Off,
        parity: Parity::Off,
        stop_bits: StopBits::One,
        timeout_ms: 0,
    }
}

impl Default for Device {
    fn default() -> (device: Device)
        ensures
            device@ == no_device(),
    {
        Device {
            name: String::new(),
            baud_rate: 9600,
            data_bits: DataBits::Eight,
            flow_control: FlowControl::Off,
            parity: Parity::Off,
            stop_bits: StopBits::One,
            timeout_ms: 0,
        }
    }
}

impl Clone for Device {
    fn clone(&self) -> (device: Device)
        ensures
            device@ == self@,
    {
        Device {
            name: self.name.clone(),
            baud_rate: self.baud_rate,
            data_bits: self.data_bits,
            flow_control: self.flow_control,
            parity: self.parity,
            stop_bits: self.stop_bits,
            timeout_ms: self.timeout_ms,
        }
    }
}

/// Whether `name` is one of `names`.
pub fn contains_name(names: &Vec<String>, name: &String) -> (found: bool)
    ensures
        found == text_views(names@).contains(name@),
{
    let mut i: usize = 0;
    while i < names.len()
        invariant
            i <= names@.len(),
            forall|j: int| 0 <= j < i ==> text_views(names@)[j] != name@,
        decreases names.len() - i,
    {
        if names[i] == *name {
            proof {
                assert(text_views(names@)[i as int] == name@);
            }
            return true;
        }
        i += 1;
    }
    false
}

/// How long the owner of the port waits before it looks again for a
/// device, and the longest that one read waits, in milliseconds.
pub const POLL_INTERVAL_MS: u64 = 100;

/// Where the connection stands.
#[derive(Clone, Copy, Debug, PartialEq, Eq, Structural)]
pub enum ConnectionState {
    Disconnected,
    Connecting,
    Connected,
}

/// Why a connection ended.
#[derive(Clone, Copy, Debug, PartialEq, Eq, Structural)]
pub enum Disconnect {
    /// Another device, or none, is asked for.
    Requested,
    /// The device is no longer among the ports, or a read failed.
    Lost,
}

/// How grave a notice is.
#[derive(Clone, Copy, Debug, PartialEq, Eq, Structural)]
pub enum Level {
    Info,
    Error,
}

/// A line for the console of whoever watches the connection.
#[derive(Debug)]
pub struct Notice {
    pub level: Level,
    pub text: String,
}

/// What the owner of the port does next.
#[derive(Clone, Copy, Debug, PartialEq, Eq, Structural)]
pub enum Step {
    /// No device to connect to is among the ports: look again after the poll
    /// interval.
    Wait,
    /// Open the manager's device and report how that went. Where `restore`
    /// is set, the device is one that was lost before: its name and baud
    /// rate become what is asked for.
    Open { restore: bool },
    /// The connection stands: send what is queued, then read once.
    Transfer,
    /// Close the port. Where the device was lost, nothing is asked for any
    /// more.
    Close(Disconnect),
}

/// What the manager of the connection holds.
pub struct ManagerView {
    pub state: ConnectionState,
    /// The device that is open or being opened.
    pub device: DeviceView,
    /// The device that was lost last, to be taken up again when it is back.
    pub last_connected: DeviceView,
    /// When the connection was made, on the clock that stamps the packets.
    pub t_zero: u128,
    /// The bytes that were read and are no line yet.
    pub pending: Seq<u8>,
}

/// Owns the decisions about one serial connection: when to open, when to
/// close and why, and how what is read and written becomes packets.
#[derive(Debug)]
pub struct ConnectionManager {
    state: ConnectionState,
    device: Device,
    last_connected: Device,
    t_zero: u128,
    framer: Framer,
}

impl View for ConnectionManager {
    type V = ManagerView;

    closed spec fn view(&self) -> ManagerView {
        ManagerView {
            state: self.state,
            device: self.device@,
            last_connected: self.last_connected@,
            t_zero: self.t_zero,
            pending: self.framer@,
        }
    }
}

/// The step that follows from the ports that are there and the device that
/// is asked for.
///
/// Without a connection, the device that was lost last is taken up again as
/// soon as it is among the ports; else the device that is asked for, if it
/// is there. With a connection, it ends on request when another name than
/// that of the open device is asked for, and as lost when the open device is
/// no longer among the ports.
pub open spec fn next_step(manager: ManagerView, ports: Seq<Seq<char>>, desired: DeviceView)
    -> Step {
    match manager.state {
        ConnectionState::Disconnected => {
            if ports.contains(manager.last_connected.name) {
                Step::Open { restore: true }
            } else if ports.contains(desired.name) {
                Step::Open { restore: false }
            } else {
                Step::Wait
            }
        },
        ConnectionState::Connecting => Step::Open { restore: false },
        ConnectionState::Connected => {
            if manager.device.name != desired.name {
                Step::Close(Disconnect::Requested)
            } else if !ports.contains(manager.device.name) {
                Step::Close(Disconnect::Lost)
            } else {
                Step::Transfer
            }
        },
    }
}

/// The manager after it decided on `next_step`.
pub open spec fn polled(manager: ManagerView, ports: Seq<Seq<char>>, desired: DeviceView)
    -> ManagerView {
    match next_step(manager, ports, desired) {
        Step::Wait => manager,
        Step::Open { restore } => if manager.state == ConnectionState::Connecting {
            manager
        } else {
            ManagerView {
                state: ConnectionState::Connecting,
                device: if restore {
                    manager.last_connected
                } else {
                    desired
                },
                ..manager
            }
        },
        Step::Transfer => manager,
        Step::Close(reason) => closed(manager, reason),
    }
}

/// The manager after its connection ended. A device that was lost is
/// remembered; after a request none is.
pub open spec fn closed(manager: ManagerView, reason: Disconnect) -> ManagerView {
    ManagerView {
        state: ConnectionState::Disconnected,
        last_connected: match reason {
            Disconnect::Requested => no_device(),
            Disconnect::Lost => manager.device,
        },
        pending: Seq::empty(),
        ..manager
    }
}

/// The milliseconds from `t_zero` to `now`; none where the clock went back.
pub open spec fn elapsed(t_zero: u128, now: u128) -> u128 {
    if now >= t_zero {
        (now - t_zero) as u128
    } else {
        0
    }
}

/// How grave the end of a connection is: a request is in order, a loss is
/// an error.
pub open spec fn level_of(reason: Disconnect) -> Level {
    match reason {
        Disconnect::Requested => Level::Info,
        Disconnect::Lost => Level::Error,
    }
}

pub open spec fn notice_text(reason: Disconnect, name: Seq<char>) -> Seq<char> {
    match reason {
        Disconnect::Requested => "Disconnected from serial port: "@ + name,
        Disconnect::Lost => "Device has disconnected from serial port: "@ + name,
    }
}

impl Disconnect {
    /// The notice that tells of the end of the connection to `name`.
    pub fn notice(&self, name: &str) -> (notice: Notice)
        ensures
            notice.level == level_of(*self),
            notice.text@ == notice_text(*self, name@),
    {
        match self {
            Disconnect::Requested => Notice {
                level: Level::Info,
                text: String::from_str("Disconnected from serial port: ").concat(name),
            },
            Disconnect::Lost => Notice {
                level: Level::Error,
                text: String::from_str("Device has disconnected from serial port: ").concat(
                    name,
                ),
            },
        }
    }
}

impl ConnectionManager {
    /// A manager without a connection that remembers no device.
    pub fn new() -> (manager: ConnectionManager)
        ensures
            manager@ == (ManagerView {
                state: ConnectionState::Disconnected,
                device: no_device(),
                last_connected: no_device(),
                t_zero: 0,
                pending: Seq::empty(),
            }),
    {
        ConnectionManager {
            state: ConnectionState::Disconnected,
            device: Device::default(),
            last_connected: Device::default(),
            t_zero: 0,
            framer: Framer::new(),
        }
    }

    pub fn state(&self) -> (state: ConnectionState)
        ensures
            state == self@.state,
    {
        self.state
    }

    /// The device that is open or being opened.
    pub fn device(&self) -> (device: &Device)
        ensures
            device@ == self@.device,
    {
        &self.device
    }

    /// Decides what to do next, given the names of the ports that are there
    /// and the device that is asked for.
    pub fn poll(&mut self, ports: &Vec<String>, desired: &Device) -> (step: Step)
        ensures
            step == next_step(old(self)@, text_views(ports@), desired@),
            final(self)@ == polled(old(self)@, text_views(ports@), desired@),
    {
        match self.state {
            ConnectionState::Disconnected => {
                if contains_name(ports, &self.last_connected.name) {
                    self.device = self.last_connected.clone();
                    self.state = ConnectionState::Connecting;
                    Step::Open { restore: true }
                } else if contains_name(ports, &desired.name) {
                    self.device = desired.clone();
                    self.state = ConnectionState::Connecting;
                    Step::Open { restore: false }
                } else {
                    Step::Wait
                }
            },
            ConnectionState::Connecting => Step::Open { restore: false },
            ConnectionState::Connected => {
                if self.device.name != desired.name {
                    self.close(Disconnect::Requested);
                    Step::Close(Disconnect::Requested)
                } else if !contains_name(ports, &self.device.name) {
                    self.close(Disconnect::Lost);
                    Step::Close(Disconnect::Lost)
                } else {
                    Step::Transfer
                }
            },
        }
    }

    fn close(&mut self, reason: Disconnect)
        ensures
            final(self)@ == closed(old(self)@, reason),
    {
        self.state = ConnectionState::Disconnected;
        self.last_connected = match reason {
            Disconnect::Requested => Device::default(),
            Disconnect::Lost => self.device.clone(),
        };
        self.framer = Framer::new();
    }

    /// The port was opened at `now`: the connection stands, and its times
    /// count from `now`.
    pub fn opened(&mut self, now: u128)
        ensures
            final(self)@ == (ManagerView {
                state: ConnectionState::Connected,
                t_zero: now,
                pending: Seq::empty(),
                ..old(self)@
            }),
    {
        self.state = ConnectionState::Connected;
        self.t_zero = now;
        self.framer = Framer::new();
    }

    /// The port could not be opened: there is no connection, and nothing is
    /// asked for any more. The device that was lost last stays remembered.
    pub fn open_failed(&mut self)
        ensures
            final(self)@ == (ManagerView {
                state: ConnectionState::Disconnected,
                pending: Seq::empty(),
                ..old(self)@
            }),
    {
        self.state = ConnectionState::Disconnected;
        self.framer = Framer::new();
    }

    /// A read failed for another reason than that its time ran out: the
    /// connection is lost.
    pub fn read_failed(&mut self) -> (reason: Disconnect)
        ensures
            reason == Disconnect::Lost,
            final(self)@ == closed(old(self)@, Disconnect::Lost),
    {
        self.close(Disconnect::Lost);
        Disconnect::Lost
    }

    /// The time of the connection at `now`.
    pub fn relative_time(&self, now: u128) -> (time: u128)
        ensures
            time == elapsed(self@.t_zero, now),
    {
        if now >= self.t_zero {
            now - self.t_zero
        } else {
            0
        }
    }

    /// The packet for a command that was written at `now`.
    pub fn sent(&self, command: String, now: u128, epoch_ms: u128) -> (packet: Packet)
        ensures
            packet@.relative_time == elapsed(self@.t_zero, now),
            packet@.absolute_time == epoch_ms,
            packet@.direction == SerialDirection::Send,
            packet@.payload == command@,
    {
        Packet {
            relative_time: self.relative_time(now),
            absolute_time: epoch_ms,
            direction: SerialDirection::Send,
            payload: command,
        }
    }
}

/// The packets that `lines` become when they were read at the given times:
/// one for each line that is valid UTF-8, in the order of the lines. A line
/// that is no text is dropped.
pub open spec fn packets_of(lines: Seq<Seq<u8>>, time: u128, absolute_time: u128) -> Seq<
    PacketView,
>
    decreases lines.len(),
{
    if lines.len() == 0 {
        Seq::empty()
    } else if valid_utf8(lines.last()) {
        packets_of(lines.drop_last(), time, absolute_time).push(
            PacketView {
                relative_time: time,
                absolute_time,
                direction: SerialDirection::Receive,
                payload: decode_utf8(lines.last()),
            },
        )
    } else {
        packets_of(lines.drop_last(), time, absolute_time)
    }
}

impl ConnectionManager {
    /// Takes the bytes of one read, made at `now`, and hands out a packet for
    /// each line that is now complete.
    pub fn received(&mut self, chunk: &[u8], now: u128, epoch_ms: u128) -> (packets: Vec<Packet>)
        ensures
            packet_views(packets@) == packets_of(
                framed(old(self)@.pending + chunk@).lines,
                elapsed(old(self)@.t_zero, now),
                epoch_ms,
            ),
            final(self)@ == (ManagerView {
                pending: framed(old(self)@.pending + chunk@).rest,
                ..old(self)@
            }),
    {
        let time = self.relative_time(now);
        let mut lines = self.framer.feed(chunk);
        let ghost all = line_views(lines@);
        let mut packets: Vec<Packet> = Vec::new();
        let mut i: usize = 0;
        proof {
            assert(all.take(0) =~= Seq::<Seq<u8>>::empty());
            assert(packet_views(packets@) =~= Seq::<PacketView>::empty());
        }
        while i < lines.len()
            invariant
                i <= lines@.len(),
                all == line_views(lines@),
                packet_views(packets@) == packets_of(all.take(i as int), time, epoch_ms),
            decreases lines.len() - i,
        {
            proof {
                assert(all.take(i + 1).drop_last() =~= all.take(i as int));
                assert(all.take(i + 1).last() == lines@[i as int]@);
            }
            let line = lines[i].clone();
            match text_of_bytes(line) {
                Some(payload) => {
                    proof {
                        vstd::utf8::encode_utf8_decode_utf8(payload@);
                    }
                    let packet = Packet {
                        relative_time: time,
                        absolute_time: epoch_ms,
                        direction: SerialDirection::Receive,
                        payload,
                    };
                    let ghost before = packet_views(packets@);
                    packets.push(packet);
                    proof {
                        assert(packet_views(packets@) =~= before.push(packet@));
                    }
                },
                None => {},
            }
            i += 1;
        }
        proof {
            assert(all.take(i as int) =~= all);
        }
        packets
    }
}

/// A connection whose device is no longer among the ports, while that device
/// is still asked for, ends as lost: the manager is disconnected, and the
/// notice is an error.
pub proof fn lemma_lost_device_is_an_error(
    manager: ManagerView,
    ports: Seq<Seq<char>>,
    desired: DeviceView,
)
    requires
        manager.state == ConnectionState::Connected,
        desired.name == manager.device.name,
        !ports.contains(manager.device.name),
    ensures
        next_step(manager, ports, desired) == Step::Close(Disconnect::Lost),
        polled(manager, ports, desired).state == ConnectionState::Disconnected,
        polled(manager, ports, desired).last_connected == manager.device,
        level_of(Disconnect::Lost) == Level::Error,
{
}

/// A connection ends on request as soon as another name than that of its
/// device is asked for, or none: the manager is disconnected, whatever the
/// ports are, and the notice is no error.
pub proof fn lemma_request_ends_in_order(
    manager: ManagerView,
    ports: Seq<Seq<char>>,
    desired: DeviceView,
)
    requires
        manager.state == ConnectionState::Connected,
        desired.name != manager.device.name,
    ensures
        next_step(manager, ports, desired) == Step::Close(Disconnect::Requested),
        polled(manager, ports, desired).state == ConnectionState::Disconnected,
        polled(manager, ports, desired).last_connected == no_device(),
        level_of(Disconnect::Requested) == Level::Info,
{
}

/// The times of a connection start at its making: a packet that is stamped
/// at the moment the port was opened has time zero, whatever the times of
/// the connection before were, and later stamps count from there.
pub proof fn lemma_times_start_anew(opened_at: u128, now: u128)
    requires
        opened_at <= now,
    ensures
        elapsed(opened_at, opened_at) == 0,
        elapsed(opened_at, now) == now - opened_at,
{
}

} // verus!

verus! {

/// What each of `devices` holds.
pub open spec fn device_views(devices: Seq<Device>) -> Seq<DeviceView> {
    devices.map_values(|d: Device| d@)
}

/// What each of `lists` holds.
pub open spec fn list_views(lists: Seq<Vec<String>>) -> Seq<Seq<Seq<char>>> {
    lists.map_values(|list: Vec<String>| text_views(list@))
}

/// The devices that were used before, each with the settings of its
/// display.
#[derive(Debug)]
pub struct SerialDevices {
    pub devices: Vec<Device>,
    /// The names of the columns of each device.
    pub labels: Vec<Vec<String>>,
    /// The patterns that are highlighted in the console of each device.
    pub highlight_labels: Vec<Vec<String>>,
    pub number_of_plots: Vec<usize>,
    pub number_of_highlights: Vec<usize>,
}

/// What the list of devices holds.
pub struct SerialDevicesView {
    pub devices: Seq<DeviceView>,
    pub labels: Seq<Seq<Seq<char>>>,
    pub highlight_labels: Seq<Seq<Seq<char>>>,
    pub number_of_plots: Seq<usize>,
    pub number_of_highlights: Seq<usize>,
}

impl View for SerialDevices {
    type V = SerialDevicesView;

    open spec fn view(&self) -> SerialDevicesView {
        SerialDevicesView {
            devices: device_views(self.devices@),
            labels: list_views(self.labels@),
            highlight_labels: list_views(self.highlight_labels@),
            number_of_plots: self.number_of_plots@,
            number_of_highlights: self.number_of_highlights@,
        }
    }
}

/// The device named `name` with the settings of a device that is new.
pub open spec fn named(name: Seq<char>) -> DeviceView {
    DeviceView { name, ..no_device() }
}

/// The list with one more device that has the settings of a new one: one
/// plot, one column named `Column 0`, and one empty pattern.
pub open spec fn with_device(list: SerialDevicesView, device: DeviceView) -> SerialDevicesView {
    SerialDevicesView {
        devices: list.devices.push(device),
        labels: list.labels.push(seq!["Column 0"@]),
        highlight_labels: list.highlight_labels.push(seq![Seq::<char>::empty()]),
        number_of_plots: list.number_of_plots.push(1),
        number_of_highlights: list.number_of_highlights.push(1),
    }
}

/// The list that holds nothing.
pub open spec fn no_devices() -> SerialDevicesView {
    SerialDevicesView {
        devices: Seq::empty(),
        labels: Seq::empty(),
        highlight_labels: Seq::empty(),
        number_of_plots: Seq::empty(),
        number_of_highlights: Seq::empty(),
    }
}

/// The last place at which a device named `name` stands, if there is one.
pub open spec fn last_named(devices: Seq<DeviceView>, name: Seq<char>) -> Option<int>
    decreases devices.len(),
{
    if devices.len() == 0 {
        None
    } else if devices.last().name == name {
        Some(devices.len() - 1)
    } else {
        last_named(devices.drop_last(), name)
    }
}

impl SerialDevices {
    /// Every device has its settings: the five lists are equally long.
    pub open spec fn wf(&self) -> bool {
        &&& self@.labels.len() == self@.devices.len()
        &&& self@.highlight_labels.len() == self@.devices.len()
        &&& self@.number_of_plots.len() == self@.devices.len()
        &&& self@.number_of_highlights.len() == self@.devices.len()
    }

    /// Adds `device` with the settings of a device that is new.
    fn add(&mut self, device: Device)
        ensures
            final(self)@ == with_device(old(self)@, device@),
    {
        let ghost before = self@;
        self.devices.push(device);
        self.number_of_plots.push(1);
        self.number_of_highlights.push(1);
        let mut patterns: Vec<String> = Vec::new();
        patterns.push(String::new());
        let mut names: Vec<String> = Vec::new();
        names.push("Column 0".to_owned());
        proof {
            assert(text_views(patterns@) =~= seq![Seq::<char>::empty()]);
            assert(text_views(names@) =~= seq!["Column 0"@]);
        }
        self.highlight_labels.push(patterns);
        self.labels.push(names);
        proof {
            assert(self@.devices =~= before.devices.push(device@));
            assert(self@.labels =~= before.labels.push(seq!["Column 0"@]));
            assert(self@.highlight_labels =~= before.highlight_labels.push(
                seq![Seq::<char>::empty()],
            ));
        }
    }

    /// The place of the device named `name`. A device that the list does not
    /// know is added, with the settings of a device that is new; of several
    /// with that name, the last is taken.
    pub fn select(&mut self, name: &String) -> (index: usize)
        ensures
            old(self).wf() ==> final(self).wf(),
            match last_named(old(self)@.devices, name@) {
                Some(k) => index == k && final(self)@ == old(self)@,
                None => index == old(self)@.devices.len() && final(self)@ == with_device(
                    old(self)@,
                    named(name@),
                ),
            },
            index < final(self)@.devices.len(),
            final(self)@.devices[index as int].name == name@,
    {
        let mut i: usize = self.devices.len();
        proof {
            assert(self@.devices.take(i as int) =~= self@.devices);
        }
        while i > 0
            invariant
                i <= self.devices@.len(),
                *self == *old(self),
                last_named(self@.devices, name@) == last_named(self@.devices.take(i as int), name@),
            decreases i,
        {
            proof {
                assert(self@.devices.take(i as int).drop_last() =~= self@.devices.take(i - 1));
                assert(self@.devices.take(i as int).last() == self.devices@[i - 1]@);
            }
            if self.devices[i - 1].name == *name {
                return i - 1;
            }
            i -= 1;
        }
        let mut device = Device::default();
        device.name = name.clone();
        self.add(device);
        proof {
            assert(self@.devices.len() == self.devices@.len());
            assert(self@.devices.last() == device@);
        }
        self.devices.len() - 1
    }
}

impl Default for SerialDevices {
    /// The list that holds the device that stands for none.
    fn default() -> (list: SerialDevices)
        ensures
            list.wf(),
            list@ == with_device(no_devices(), no_device()),
    {
        let mut list = SerialDevices {
            devices: Vec::new(),
            labels: Vec::new(),
            highlight_labels: Vec::new(),
            number_of_plots: Vec::new(),
            number_of_highlights: Vec::new(),
        };
        proof {
            assert(list@.devices =~= Seq::empty());
            assert(list@.labels =~= Seq::empty());
            assert(list@.highlight_labels =~= Seq::empty());
            assert(list@ == no_devices());
        }
        list.add(Device::default());
        list
    }
}

/// The list of devices to keep when the settings are cleared: the list that a
/// first start begins with.
pub fn clear_serial_settings() -> (serial_configs: SerialDevices)
    ensures
        serial_configs.wf(),
        serial_configs@ == with_device(no_devices(), no_device()),
{
    SerialDevices::default()
}

} // verus!
