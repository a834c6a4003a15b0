use vstd::prelude::*;
use vstd::string::StringExecFns;
use crate::data::{bounded, direction_label, ColumnView, Packet, PacketView, SerialDirection};
use crate::decimal::{decimal, digit_char, push_decimal};
use crate::io::{
    csv_rows, csv_text, export_rows, first_error, imported, names_of, open_from_csv, raw_rows,
    save_to_csv, ExportError, FileOptions, ImportError, Saved,
};
use crate::number::Number;
use crate::record::RecordData;
use crate::schema::{number_views, record_of, Record};
use crate::store::{absorbed, cleared, logged, outcome_of, text_views, DataContainer, Outcome, StoreView};
use crate::text::push_char;

verus! {

/// What the user interface asks of the worker that takes the packets in.
#[derive(Clone, Copy, Debug, PartialEq, Eq, Structural)]
pub enum GuiCommand {
    Clear,
    ShowTimestamps(bool),
    ShowSentTraffic(bool),
}

/// A time in seconds with three decimals, for a time in milliseconds.
pub open spec fn seconds_text(ms: u128) -> Seq<char> {
    decimal((ms / 1000) as nat) + seq![
        '.',
        digit_char(((ms % 1000) / 100) as nat),
        digit_char(((ms % 100) / 10) as nat),
        digit_char((ms % 10) as nat),
    ]
}

/// The line that the console shows for a packet, if it shows one. With the
/// sent commands shown, every packet gets a line that starts with its
/// direction in brackets; without them, only what was received gets a line.
/// With the times shown, the line tells the time of the connection in
/// seconds.
pub open spec fn console_line(show_timestamps: bool, show_sent_cmds: bool, packet: PacketView)
    -> Option<Seq<char>> {
    if show_sent_cmds {
        if show_timestamps {
            Some(
                "["@ + direction_label(packet.direction) + "] t + "@ + seconds_text(
                    packet.relative_time,
                ) + "s: "@ + packet.payload + "\n"@,
            )
        } else {
            Some("["@ + direction_label(packet.direction) + "]: "@ + packet.payload + "\n"@)
        }
    } else if packet.direction == SerialDirection::Receive {
        if show_timestamps {
            Some("t + "@ + seconds_text(packet.relative_time) + "s: "@ + packet.payload + "\n"@)
        } else {
            Some(packet.payload + "\n"@)
        }
    } else {
        None
    }
}

/// Appends the time `ms`, in seconds with three decimals, to `out`.
fn push_seconds(out: &mut String, ms: u128)
    ensures
        final(out)@ == old(out)@ + seconds_text(ms),
{
    push_decimal(out, ms / 1000);
    push_char(out, '.');
    push_char(out, (48 + (ms % 1000 / 100) as u8) as char);
    push_char(out, (48 + (ms % 100 / 10) as u8) as char);
    push_char(out, (48 + (ms % 10) as u8) as char);
    proof {
        assert(out@ =~= old(out)@ + seconds_text(ms));
    }
}

/// The line that the console shows for `packet`.
pub fn console_text(show_timestamps: bool, show_sent_cmds: bool, packet: &Packet) -> (line: Option<
    String,
>)
    ensures
        match line {
            Some(text) => console_line(show_timestamps, show_sent_cmds, packet@) == Some(text@),
            None => console_line(show_timestamps, show_sent_cmds, packet@) is None,
        },
{
    let is_received = match packet.direction {
        SerialDirection::Receive => true,
        SerialDirection::Send => false,
    };
    if !show_sent_cmds && !is_received {
        return None;
    }
    let mut line = String::new();
    proof {
        assert(line@ =~= Seq::<char>::empty());
    }
    if show_sent_cmds {
        line.append("[");
        line.append(packet.direction.to_string().as_str());
        if show_timestamps {
            line.append("] t + ");
        } else {
            line.append("]: ");
        }
    } else if show_timestamps {
        line.append("t + ");
    }
    if show_timestamps {
        push_seconds(&mut line, packet.relative_time);
        line.append("s: ");
    }
    line.append(packet.payload.as_str());
    line.append("\n");
    proof {
        assert(console_line(show_timestamps, show_sent_cmds, packet@) is Some);
        assert(line@ =~= console_line(show_timestamps, show_sent_cmds, packet@).unwrap());
    }
    Some(line)
}

/// The store after `packet` arrived. While the store holds a file nothing
/// is taken. Otherwise the packet goes into the log, and a packet with a
/// payload gives up its record to the columns.
pub open spec fn taken(store: StoreView, packet: PacketView) -> StoreView {
    if store.loaded_from_file {
        store
    } else if packet.payload.len() == 0 {
        logged(store, packet)
    } else {
        absorbed(
            logged(store, packet),
            record_of(packet.payload),
            packet.relative_time,
            packet.absolute_time,
        )
    }
}

/// What becomes of the record of `packet`, if the packet is looked at for
/// one at all.
pub open spec fn fate(store: StoreView, packet: PacketView) -> Option<Outcome> {
    if store.loaded_from_file || packet.payload.len() == 0 {
        None
    } else {
        Some(outcome_of(logged(store, packet), record_of(packet.payload)))
    }
}

/// The values for the recorder: those of a record that went into the columns.
pub open spec fn recorded(store: StoreView, packet: PacketView) -> Option<Seq<Seq<char>>> {
    match fate(store, packet) {
        Some(Outcome::Appended) | Some(Outcome::Extended) | Some(Outcome::Rebuilt) => {
            if record_of(packet.payload).values.len() > 0 {
                Some(record_of(packet.payload).values)
            } else {
                None
            }
        },
        _ => None,
    }
}

/// The store with new bounds. What is over them leaves, the oldest first;
/// the columns of a file are not cut.
pub open spec fn limited(store: StoreView, capacity: usize, raw_capacity: usize, raw_enabled: bool)
    -> StoreView {
    StoreView {
        capacity: capacity as nat,
        raw_capacity: raw_capacity as nat,
        raw_enabled,
        columns: if store.loaded_from_file {
            store.columns
        } else {
            Seq::new(
                store.columns.len(),
                |c: int|
                    ColumnView {
                        name: store.columns[c].name,
                        samples: bounded(store.columns[c].samples, capacity as nat),
                    },
            )
        },
        raw_traffic: if raw_enabled {
            bounded(store.raw_traffic, raw_capacity as nat)
        } else {
            Seq::empty()
        },
        ..store
    }
}

/// What one packet gives to those who wait for it.
#[derive(Debug)]
pub struct Delivery {
    /// A line for the console.
    pub console: Option<String>,
    /// A row for the recorder.
    pub sample: Option<RecordData>,
    /// What became of the record of the packet.
    pub outcome: Option<Outcome>,
    /// The store changed: the display is to be drawn again.
    pub repaint: bool,
}

/// The worker between the connection and those who use the data: it owns
/// the store and says what each packet gives to the console, the recorder and
/// the display.
#[derive(Debug)]
pub struct Ingestion {
    data: DataContainer,
    show_timestamps: bool,
    show_sent_cmds: bool,
}

/// What the worker holds.
pub struct IngestionView {
    pub store: StoreView,
    pub show_timestamps: bool,
    pub show_sent_cmds: bool,
}

impl View for Ingestion {
    type V = IngestionView;

    closed spec fn view(&self) -> IngestionView {
        IngestionView {
            store: self.data@,
            show_timestamps: self.show_timestamps,
            show_sent_cmds: self.show_sent_cmds,
        }
    }
}

impl Ingestion {
    #[verifier::type_invariant]
    spec fn well_formed(self) -> bool {
        self.data.wf()
    }

    /// A worker around `data` that shows times and sent commands.
    pub fn new(data: DataContainer) -> (worker: Ingestion)
        requires
            data.wf(),
        ensures
            worker@ == (IngestionView {
                store: data@,
                show_timestamps: true,
                show_sent_cmds: true,
            }),
    {
        Ingestion { data, show_timestamps: true, show_sent_cmds: true }
    }

    /// The store, for a snapshot.
    pub fn data(&self) -> (data: &DataContainer)
        ensures
            data@ == self@.store,
            data.wf(),
    {
        proof {
            use_type_invariant(self);
        }
        &self.data
    }

    /// Takes one packet of the connection.
    pub fn handle_packet(&mut self, packet: Packet) -> (delivery: Delivery)
        ensures
            final(self)@ == (IngestionView { store: taken(old(self)@.store, packet@), ..old(self)@ }),
            delivery.outcome == fate(old(self)@.store, packet@),
            delivery.repaint == delivery.outcome is Some,
            match delivery.console {
                Some(text) => delivery.outcome is Some && console_line(
                    old(self)@.show_timestamps,
                    old(self)@.show_sent_cmds,
                    packet@,
                ) == Some(text@),
                None => delivery.outcome is None || console_line(
                    old(self)@.show_timestamps,
                    old(self)@.show_sent_cmds,
                    packet@,
                ) is None,
            },
            match delivery.sample {
                Some(sample) => sample.time == packet@.absolute_time && recorded(
                    old(self)@.store,
                    packet@,
                ) == Some(number_views(sample.datas@)),
                None => recorded(old(self)@.store, packet@) is None,
            },
    {
        proof {
            use_type_invariant(&*self);
        }
        if self.data.loaded_from_file() {
            return Delivery { console: None, sample: None, outcome: None, repaint: false };
        }
        let mut data = DataContainer::new(0, 0);
        std::mem::swap(&mut data, &mut self.data);
        data.log_packet(&packet);
        if packet.payload.as_str().is_empty() {
            self.data = data;
            return Delivery { console: None, sample: None, outcome: None, repaint: false };
        }
        let console = console_text(self.show_timestamps, self.show_sent_cmds, &packet);
        let record = Record::parse(packet.payload.as_str());
        let datas = clone_numbers(record.values());
        let outcome = data.absorb(record, packet.relative_time, packet.absolute_time);
        self.data = data;
        let accepted = match outcome {
            Outcome::Appended | Outcome::Extended | Outcome::Rebuilt => datas.len() > 0,
            _ => false,
        };
        let sample = if accepted {
            Some(RecordData { time: packet.absolute_time, datas })
        } else {
            None
        };
        Delivery { console, sample, outcome: Some(outcome), repaint: true }
    }

    /// Sets the most samples that a column holds while data comes from the
    /// line, the most packets that the log holds, and whether the log is kept
    /// at all. What is over the new bounds leaves, the oldest first.
    pub fn set_limits(&mut self, capacity: usize, raw_capacity: usize, raw_enabled: bool)
        ensures
            final(self)@.show_timestamps == old(self)@.show_timestamps,
            final(self)@.show_sent_cmds == old(self)@.show_sent_cmds,
            final(self)@.store == limited(old(self)@.store, capacity, raw_capacity, raw_enabled),
    {
        proof {
            use_type_invariant(&*self);
        }
        let mut data = DataContainer::new(0, 0);
        std::mem::swap(&mut data, &mut self.data);
        data.set_capacity(capacity);
        data.set_raw_capacity(raw_capacity);
        data.set_raw_enabled(raw_enabled);
        self.data = data;
    }

    /// Sets the names for the columns that are made from now on.
    pub fn set_labels(&mut self, labels: Vec<String>)
        ensures
            final(self)@ == (IngestionView {
                store: StoreView { labels: text_views(labels@), ..old(self)@.store },
                ..old(self)@
            }),
    {
        proof {
            use_type_invariant(&*self);
        }
        let mut data = DataContainer::new(0, 0);
        std::mem::swap(&mut data, &mut self.data);
        data.set_labels(labels);
        self.data = data;
    }

    /// Does what the user interface asks: to clear the store, or to change
    /// what the console shows.
    pub fn handle_command(&mut self, command: GuiCommand)
        ensures
            final(self)@ == match command {
                GuiCommand::Clear => IngestionView {
                    store: cleared(old(self)@.store),
                    ..old(self)@
                },
                GuiCommand::ShowTimestamps(show) => IngestionView {
                    show_timestamps: show,
                    ..old(self)@
                },
                GuiCommand::ShowSentTraffic(show) => IngestionView {
                    show_sent_cmds: show,
                    ..old(self)@
                },
            },
    {
        proof {
            use_type_invariant(&*self);
        }
        match command {
            GuiCommand::Clear => {
                let mut data = DataContainer::new(0, 0);
                std::mem::swap(&mut data, &mut self.data);
                data.clear();
                self.data = data;
            },
            GuiCommand::ShowTimestamps(show) => {
                self.show_timestamps = show;
            },
            GuiCommand::ShowSentTraffic(show) => {
                self.show_sent_cmds = show;
            },
        }
    }

    /// Takes the file with this content in place of the live data. Where
    /// the file is not in order, the error is reported and nothing changes.
    pub fn handle_load(&mut self, content: &[u8], csv_options: &mut FileOptions) -> (r: Result<
        (),
        ImportError,
    >)
        ensures
            final(self)@.show_timestamps == old(self)@.show_timestamps,
            final(self)@.show_sent_cmds == old(self)@.show_sent_cmds,
            final(csv_options).file_path == old(csv_options).file_path,
            final(csv_options).save_absolute_time == old(csv_options).save_absolute_time,
            final(csv_options).save_raw_traffic == old(csv_options).save_raw_traffic,
            match (csv_rows(content@), r) {
                (None, Err(e)) => e == ImportError::Malformed && final(self)@.store
                    == old(self)@.store && final(csv_options).names@ == old(csv_options).names@,
                (Some(rows), Ok(())) => {
                    &&& first_error(rows, rows.len() as int) is None
                    &&& final(self)@.store == imported(old(self)@.store, rows)
                    &&& text_views(final(csv_options).names@) == names_of(rows)
                },
                (Some(rows), Err(e)) => {
                    &&& first_error(rows, rows.len() as int) == Some(e)
                    &&& final(self)@.store == old(self)@.store
                    &&& final(csv_options).names@ == old(csv_options).names@
                },
                (None, Ok(())) => false,
            },
    {
        proof {
            use_type_invariant(&*self);
        }
        let mut data = DataContainer::new(0, 0);
        std::mem::swap(&mut data, &mut self.data);
        let r = open_from_csv(&mut data, csv_options, content);
        self.data = data;
        r
    }

    /// Closes the file that the store holds, if it holds one: the store is
    /// empty again and takes what comes from the line.
    pub fn close_file(&mut self)
        ensures
            final(self)@ == if old(self)@.store.loaded_from_file {
                IngestionView { store: cleared(old(self)@.store), ..old(self)@ }
            } else {
                old(self)@
            },
    {
        proof {
            use_type_invariant(&*self);
        }
        if self.data.loaded_from_file() {
            self.handle_command(GuiCommand::Clear);
        }
    }

    /// The bytes of the files that hold the data as it stands.
    pub fn handle_save(&self, csv_options: &FileOptions) -> (r: Result<Saved, ExportError>)
        ensures
            r is Ok,
            r.unwrap().data@ == csv_text(
                export_rows(
                    self@.store,
                    text_views(csv_options.names@),
                    csv_options.save_absolute_time,
                ),
                false,
            ),
            match r.unwrap().raw {
                Some(bytes) => csv_options.save_raw_traffic && bytes@ == csv_text(
                    raw_rows(self@.store),
                    false,
                ),
                None => !csv_options.save_raw_traffic,
            },
    {
        save_to_csv(&self.data, csv_options)
    }
}

/// A copy of `numbers`.
pub fn clone_numbers(numbers: &Vec<Number>) -> (copy: Vec<Number>)
    ensures
        number_views(copy@) == number_views(numbers@),
{
    let mut copy: Vec<Number> = Vec::new();
    let mut i: usize = 0;
    proof {
        assert(number_views(copy@) =~= number_views(numbers@).take(0));
    }
    while i < numbers.len()
        invariant
            i <= numbers@.len(),
            number_views(copy@) == number_views(numbers@).take(i as int),
        decreases numbers.len() - i,
    {
        let number = numbers[i].clone();
        let ghost before = number_views(copy@);
        copy.push(number);
        proof {
            assert(number_views(copy@) =~= before.push(number@));
            assert(number_views(copy@) =~= number_views(numbers@).take(i + 1));
        }
        i += 1;
    }
    proof {
        assert(number_views(numbers@).take(i as int) =~= number_views(numbers@));
    }
    copy
}

} // verus!
