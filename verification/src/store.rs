use vstd::prelude::*;
use std::collections::VecDeque;
use crate::data::{bounded, push_bounded, Column, ColumnView, Packet, PacketView, Sample, SampleView};
use crate::decimal::{decimal, push_decimal};
use crate::number::{is_number, Number};
use crate::schema::{number_views, Record, RecordView};

verus! {

/// After more than this many records in a row that did not fit the columns,
/// the columns are given up and laid out anew.
pub const FAILURE_THRESHOLD: usize = 10;

/// A run of neighbouring columns that one stream of records fills. Records
/// without an identifier fill the stream with the empty identifier.
#[derive(Debug)]
pub struct Stream {
    pub(crate) id: String,
    pub(crate) start: usize,
    pub(crate) width: usize,
}

/// What a stream holds.
pub struct StreamView {
    pub id: Seq<char>,
    pub start: nat,
    pub width: nat,
}

impl View for Stream {
    type V = StreamView;

    open(crate) spec fn view(&self) -> StreamView {
        StreamView { id: self.id@, start: self.start as nat, width: self.width as nat }
    }
}

/// The live data: the columns, the streams that fill them, and the log of
/// the traffic as it went over the line.
#[derive(Debug)]
pub struct DataContainer {
    pub(crate) columns: Vec<Column>,
    pub(crate) streams: Vec<Stream>,
    pub(crate) raw_traffic: VecDeque<Packet>,
    pub(crate) loaded_from_file: bool,
    pub(crate) failures: usize,
    pub(crate) capacity: usize,
    pub(crate) raw_capacity: usize,
    pub(crate) raw_enabled: bool,
    pub(crate) labels: Vec<String>,
}

/// What the store holds.
pub struct StoreView {
    pub columns: Seq<ColumnView>,
    pub streams: Seq<StreamView>,
    pub raw_traffic: Seq<PacketView>,
    /// The columns were read from a file: nothing is taken from the line
    /// until the file is closed.
    pub loaded_from_file: bool,
    /// How many records in a row did not fit the columns.
    pub failures: nat,
    /// The most samples that a column holds while data comes from the line.
    pub capacity: nat,
    /// The most packets that the log holds.
    pub raw_capacity: nat,
    /// Whether the log is kept at all.
    pub raw_enabled: bool,
    /// Names for the first columns. A column beyond them is named by its
    /// place.
    pub labels: Seq<Seq<char>>,
}

pub open spec fn column_views(columns: Seq<Column>) -> Seq<ColumnView> {
    columns.map_values(|c: Column| c@)
}

pub open spec fn stream_views(streams: Seq<Stream>) -> Seq<StreamView> {
    streams.map_values(|s: Stream| s@)
}

pub open spec fn packet_views(packets: Seq<Packet>) -> Seq<PacketView> {
    packets.map_values(|p: Packet| p@)
}

pub open spec fn text_views(texts: Seq<String>) -> Seq<Seq<char>> {
    texts.map_values(|t: String| t@)
}

impl View for DataContainer {
    type V = StoreView;

    open(crate) spec fn view(&self) -> StoreView {
        StoreView {
            columns: column_views(self.columns@),
            streams: stream_views(self.streams@),
            raw_traffic: packet_views(self.raw_traffic@),
            loaded_from_file: self.loaded_from_file,
            failures: self.failures as nat,
            capacity: self.capacity as nat,
            raw_capacity: self.raw_capacity as nat,
            raw_enabled: self.raw_enabled,
            labels: text_views(self.labels@),
        }
    }
}

/// The number of columns that `streams` fill together.
pub open spec fn total_width(streams: Seq<StreamView>) -> nat
    decreases streams.len(),
{
    if streams.len() == 0 {
        0
    } else {
        total_width(streams.drop_last()) + streams.last().width
    }
}

/// The streams lie side by side, in the order in which they came, and cover
/// `width` columns: each starts where the one before it ends, and none is
/// empty.
pub open spec fn streams_cover(streams: Seq<StreamView>, width: nat) -> bool {
    &&& width == total_width(streams)
    &&& forall|k: int|
        0 <= k < streams.len() ==> (#[trigger] streams[k]).width >= 1 && streams[k].start
            == total_width(streams.take(k))
}

/// No two streams have the same identifier.
pub open spec fn streams_distinct(streams: Seq<StreamView>) -> bool {
    forall|j: int, k: int|
        0 <= j < k < streams.len() ==> (#[trigger] streams[j]).id != (#[trigger] streams[k]).id
}

/// Every value of the series is written as a number.
pub open spec fn numeric(samples: Seq<SampleView>) -> bool {
    forall|j: int| 0 <= j < samples.len() ==> is_number((#[trigger] samples[j]).value)
}

/// A series stays numeric, and within its bound, when a number arrives.
pub proof fn lemma_numeric_push(samples: Seq<SampleView>, sample: SampleView, capacity: nat)
    requires
        numeric(samples),
        is_number(sample.value),
    ensures
        numeric(push_bounded(samples, sample, capacity)),
        push_bounded(samples, sample, capacity).len() <= capacity,
{
    let pushed = samples.push(sample);
    let kept = push_bounded(samples, sample, capacity);
    assert forall|j: int| 0 <= j < kept.len() implies is_number((#[trigger] kept[j]).value) by {
        if pushed.len() > capacity {
            let k = pushed.len() - capacity + j;
            assert(kept[j] == pushed[k]);
            if k < samples.len() {
                assert(pushed[k] == samples[k]);
            }
        } else {
            if j < samples.len() {
                assert(pushed[j] == samples[j]);
            }
        }
    }
}

/// The names of `columns`.
pub open spec fn column_names(columns: Seq<ColumnView>) -> Seq<Seq<char>> {
    columns.map_values(|c: ColumnView| c.name)
}

/// The two times of each of `samples`.
pub open spec fn stamps(samples: Seq<SampleView>) -> Seq<(u128, u128)> {
    samples.map_values(|s: SampleView| (s.time, s.absolute_time))
}

/// The columns of each stream carry the same times, and so are equally
/// long.
pub open spec fn synchronized(store: StoreView) -> bool {
    forall|k: int, c: int|
        #![trigger store.streams[k], store.columns[c]]
        0 <= k < store.streams.len() && store.streams[k].start <= c < store.streams[k].start
            + store.streams[k].width ==> stamps(store.columns[c].samples) == stamps(
            store.columns[store.streams[k].start as int].samples,
        )
}

/// The columns from `start` on, `width` of them, are those of whole streams:
/// no stream lies partly among them.
pub open spec fn whole_streams(store: StoreView, start: nat, width: nat) -> bool {
    forall|k: int|
        0 <= k < store.streams.len() ==> {
            let s = #[trigger] store.streams[k];
            ||| start <= s.start && s.start + s.width <= start + width
            ||| s.start + s.width <= start
            ||| start + width <= s.start
        }
}

/// What holds of every store.
pub open spec fn store_wf(store: StoreView) -> bool {
    &&& streams_cover(store.streams, store.columns.len())
    &&& streams_distinct(store.streams)
    &&& store.failures <= FAILURE_THRESHOLD + 1
    &&& store.raw_traffic.len() <= store.raw_capacity
    &&& store.raw_enabled || store.raw_traffic.len() == 0
    &&& store.loaded_from_file || forall|c: int|
        0 <= c < store.columns.len() ==> (#[trigger] store.columns[c]).samples.len()
            <= store.capacity
    &&& forall|c: int| 0 <= c < store.columns.len() ==> numeric((#[trigger] store.columns[c]).samples)
    &&& synchronized(store)
}

/// A store without columns, streams and traffic, with the settings of
/// `store`.
pub open spec fn cleared(store: StoreView) -> StoreView {
    StoreView {
        columns: Seq::empty(),
        streams: Seq::empty(),
        raw_traffic: Seq::empty(),
        loaded_from_file: false,
        failures: 0,
        ..store
    }
}

/// The store after `packet` went into its log.
pub open spec fn logged(store: StoreView, packet: PacketView) -> StoreView {
    if store.raw_enabled {
        StoreView {
            raw_traffic: push_bounded(store.raw_traffic, packet, store.raw_capacity),
            ..store
        }
    } else {
        store
    }
}

impl DataContainer {
    pub open spec fn wf(&self) -> bool {
        store_wf(self@)
    }

    /// An empty store whose columns hold `capacity` samples each, and whose
    /// log holds `raw_capacity` packets.
    pub fn new(capacity: usize, raw_capacity: usize) -> (store: DataContainer)
        ensures
            store.wf(),
            store@ == (StoreView {
                columns: Seq::empty(),
                streams: Seq::empty(),
                raw_traffic: Seq::empty(),
                loaded_from_file: false,
                failures: 0,
                capacity: capacity as nat,
                raw_capacity: raw_capacity as nat,
                raw_enabled: true,
                labels: Seq::empty(),
            }),
    {
        let store = DataContainer {
            columns: Vec::new(),
            streams: Vec::new(),
            raw_traffic: VecDeque::new(),
            loaded_from_file: false,
            failures: 0,
            capacity,
            raw_capacity,
            raw_enabled: true,
            labels: Vec::new(),
        };
        proof {
            assert(store@.columns =~= Seq::empty());
            assert(store@.streams =~= Seq::empty());
            assert(store@.raw_traffic =~= Seq::empty());
            assert(store@.labels =~= Seq::empty());
        }
        store
    }

    /// Forgets columns, streams and traffic, and keeps the settings: the
    /// store is then as good as new.
    pub fn clear(&mut self)
        requires
            old(self).wf(),
        ensures
            final(self).wf(),
            final(self)@ == cleared(old(self)@),
    {
        self.columns = Vec::new();
        self.streams = Vec::new();
        self.raw_traffic = VecDeque::new();
        self.loaded_from_file = false;
        self.failures = 0;
        proof {
            assert(self@.columns =~= Seq::empty());
            assert(self@.streams =~= Seq::empty());
            assert(self@.raw_traffic =~= Seq::empty());
        }
    }

    /// Puts `packet` at the end of the log, if the log is kept. Where the log
    /// is then over its bound, the oldest packets leave.
    pub fn log_packet(&mut self, packet: &Packet)
        requires
            old(self).wf(),
        ensures
            final(self).wf(),
            final(self)@ == logged(old(self)@, packet@),
    {
        if !self.raw_enabled {
            return ;
        }
        let ghost pushed = old(self)@.raw_traffic.push(packet@);
        self.raw_traffic.push_back(packet.clone());
        proof {
            assert(packet_views(self.raw_traffic@) =~= pushed);
        }
        if self.raw_traffic.len() > self.raw_capacity {
            let ghost before = self.raw_traffic@;
            self.raw_traffic.pop_front();
            proof {
                assert(packet_views(self.raw_traffic@) =~= pushed.skip(1));
            }
        }
        proof {
            assert(self@.raw_traffic =~= push_bounded(
                old(self)@.raw_traffic,
                packet@,
                old(self)@.raw_capacity,
            ));
        }
    }

    /// Replaces what the store holds by the columns of a file.
    pub(crate) fn install(&mut self, columns: Vec<Column>)
        requires
            forall|c: int|
                0 <= c < columns@.len() ==> numeric((#[trigger] column_views(columns@)[c]).samples),
            forall|c: int|
                0 <= c < columns@.len() ==> stamps((#[trigger] column_views(columns@)[c]).samples)
                    == stamps(column_views(columns@)[0].samples),
        ensures
            final(self).wf(),
            final(self)@ == (StoreView {
                columns: column_views(columns@),
                streams: if columns@.len() > 0 {
                    seq![StreamView { id: Seq::empty(), start: 0, width: columns@.len() }]
                } else {
                    Seq::empty()
                },
                raw_traffic: Seq::empty(),
                loaded_from_file: true,
                failures: 0,
                ..old(self)@
            }),
    {
        let mut streams: Vec<Stream> = Vec::new();
        if columns.len() > 0 {
            streams.push(Stream { id: String::new(), start: 0, width: columns.len() });
        }
        proof {
            if columns@.len() > 0 {
                assert(stream_views(streams@) =~= seq![
                    StreamView { id: Seq::empty(), start: 0, width: columns@.len() },
                ]);
                assert(stream_views(streams@).take(0) =~= Seq::empty());
                assert(stream_views(streams@).drop_last() =~= Seq::empty());
            } else {
                assert(stream_views(streams@) =~= Seq::empty());
            }
        }
        self.columns = columns;
        self.streams = streams;
        self.raw_traffic = VecDeque::new();
        self.loaded_from_file = true;
        self.failures = 0;
        proof {
            assert(self@.raw_traffic =~= Seq::empty());
            let streams = self@.streams;
            if streams.len() > 0 {
                assert(total_width(streams.drop_last()) == 0);
                assert(total_width(streams) == streams.last().width);
                assert forall|k: int| 0 <= k < streams.len() implies (#[trigger] streams[k]).width
                    >= 1 && streams[k].start == total_width(streams.take(k)) by {
                    assert(streams.take(0) =~= Seq::empty());
                }
            }
            assert(streams_cover(streams, self@.columns.len()));
            assert(streams_distinct(streams));
        }
    }

    /// Sets the most samples that a column holds while data comes from the
    /// line. Columns that hold more lose their oldest samples, unless they
    /// hold a file.
    pub fn set_capacity(&mut self, capacity: usize)
        requires
            old(self).wf(),
        ensures
            final(self).wf(),
            final(self)@ == (StoreView {
                capacity: capacity as nat,
                columns: if old(self)@.loaded_from_file {
                    old(self)@.columns
                } else {
                    Seq::new(
                        old(self)@.columns.len(),
                        |c: int|
                            ColumnView {
                                name: old(self)@.columns[c].name,
                                samples: bounded(old(self)@.columns[c].samples, capacity as nat),
                            },
                    )
                },
                ..old(self)@
            }),
    {
        let ghost before = self@;
        self.capacity = capacity;
        if self.loaded_from_file {
            return ;
        }
        let width = self.columns.len();
        let mut c: usize = 0;
        proof {
            assert(self@.columns =~= Seq::new(
                before.columns.len(),
                |k: int|
                    if k < 0 {
                        ColumnView {
                            name: before.columns[k].name,
                            samples: bounded(before.columns[k].samples, capacity as nat),
                        }
                    } else {
                        before.columns[k]
                    },
            ));
        }
        while c < width
            invariant
                c <= width == before.columns.len() == self.columns@.len(),
                self@ == (StoreView {
                    columns: self@.columns,
                    capacity: capacity as nat,
                    ..before
                }),
                self@.columns == Seq::new(
                    before.columns.len(),
                    |k: int|
                        if k < c {
                            ColumnView {
                                name: before.columns[k].name,
                                samples: bounded(before.columns[k].samples, capacity as nat),
                            }
                        } else {
                            before.columns[k]
                        },
                ),
            decreases width - c,
        {
            let ghost columns_before = self.columns@;
            self.columns[c].bound(capacity);
            proof {
                assert(column_views(columns_before)[c as int] == before.columns[c as int]);
                assert forall|k: int| 0 <= k < before.columns.len() implies (
                #[trigger] self@.columns[k]) == if k < c + 1 {
                    ColumnView {
                        name: before.columns[k].name,
                        samples: bounded(before.columns[k].samples, capacity as nat),
                    }
                } else {
                    before.columns[k]
                } by {
                    if k != c {
                        assert(self.columns@[k] == columns_before[k]);
                        assert(column_views(columns_before)[k] == columns_before[k]@);
                    }
                }
                assert(self@.columns =~= Seq::new(
                    before.columns.len(),
                    |k: int|
                        if k < c + 1 {
                            ColumnView {
                                name: before.columns[k].name,
                                samples: bounded(before.columns[k].samples, capacity as nat),
                            }
                        } else {
                            before.columns[k]
                        },
                ));
            }
            c += 1;
        }
        proof {
            let after = self@;
            assert(after.columns =~= Seq::new(
                before.columns.len(),
                |c: int|
                    ColumnView {
                        name: before.columns[c].name,
                        samples: bounded(before.columns[c].samples, capacity as nat),
                    },
            ));
            lemma_bounded_is_synchronized(before, after, capacity as nat);
            assert forall|k: int| 0 <= k < after.columns.len() implies numeric(
                (#[trigger] after.columns[k]).samples,
            ) && after.columns[k].samples.len() <= after.capacity by {
                let all = before.columns[k].samples;
                assert(numeric(all));
                let kept = bounded(all, capacity as nat);
                assert forall|j: int| 0 <= j < kept.len() implies is_number(
                    (#[trigger] kept[j]).value,
                ) by {
                    if all.len() > capacity {
                        assert(kept[j] == all[all.len() - capacity + j]);
                    }
                }
            }
        }
    }

    /// Sets the most packets that the log holds. A log that holds more
    /// loses its oldest packets.
    pub fn set_raw_capacity(&mut self, raw_capacity: usize)
        requires
            old(self).wf(),
        ensures
            final(self).wf(),
            final(self)@ == (StoreView {
                raw_capacity: raw_capacity as nat,
                raw_traffic: bounded(old(self)@.raw_traffic, raw_capacity as nat),
                ..old(self)@
            }),
    {
        let ghost all = old(self)@.raw_traffic;
        self.raw_capacity = raw_capacity;
        proof {
            assert(all.skip(0) =~= all);
        }
        while self.raw_traffic.len() > raw_capacity
            invariant
                self@ == (StoreView {
                    raw_capacity: raw_capacity as nat,
                    raw_traffic: self@.raw_traffic,
                    ..old(self)@
                }),
                self@.raw_traffic.len() <= all.len(),
                self@.raw_traffic == all.skip(all.len() - self@.raw_traffic.len()),
                self@.raw_traffic.len() >= raw_capacity || self@.raw_traffic.len() == all.len(),
            decreases self.raw_traffic.len(),
        {
            let ghost before = self@.raw_traffic;
            self.raw_traffic.pop_front();
            proof {
                assert(self@.raw_traffic =~= before.skip(1));
                assert(all.skip(all.len() - before.len()).skip(1) =~= all.skip(
                    all.len() - self@.raw_traffic.len(),
                ));
            }
        }
    }

    /// Turns the log on or off. A log that is turned off forgets what it
    /// held.
    pub fn set_raw_enabled(&mut self, enabled: bool)
        requires
            old(self).wf(),
        ensures
            final(self).wf(),
            final(self)@ == (StoreView {
                raw_enabled: enabled,
                raw_traffic: if enabled {
                    old(self)@.raw_traffic
                } else {
                    Seq::empty()
                },
                ..old(self)@
            }),
    {
        self.raw_enabled = enabled;
        if !enabled {
            self.raw_traffic = VecDeque::new();
            proof {
                assert(self@.raw_traffic =~= Seq::empty());
            }
        }
    }

    /// Sets the names for the columns that are made from now on.
    pub fn set_labels(&mut self, labels: Vec<String>)
        requires
            old(self).wf(),
        ensures
            final(self).wf(),
            final(self)@ == (StoreView { labels: text_views(labels@), ..old(self)@ }),
    {
        self.labels = labels;
    }

    /// The names of the columns.
    pub fn names(&self) -> (names: Vec<String>)
        ensures
            text_views(names@) == column_names(self@.columns),
    {
        let mut names: Vec<String> = Vec::new();
        let mut c: usize = 0;
        proof {
            assert(text_views(names@) =~= column_names(self@.columns).take(0));
        }
        while c < self.columns.len()
            invariant
                c <= self.columns@.len(),
                text_views(names@) == column_names(self@.columns).take(c as int),
            decreases self.columns.len() - c,
        {
            let name = self.columns[c].name().to_owned();
            let ghost before = text_views(names@);
            names.push(name);
            proof {
                assert(text_views(names@) =~= before.push(name@));
                assert(text_views(names@) =~= column_names(self@.columns).take(c + 1));
            }
            c += 1;
        }
        proof {
            assert(column_names(self@.columns).take(c as int) =~= column_names(self@.columns));
        }
        names
    }

    pub fn columns(&self) -> (columns: &Vec<Column>)
        ensures
            column_views(columns@) == self@.columns,
    {
        &self.columns
    }

    pub fn raw_traffic(&self) -> (packets: &VecDeque<Packet>)
        ensures
            packet_views(packets@) == self@.raw_traffic,
    {
        &self.raw_traffic
    }

    pub fn loaded_from_file(&self) -> (loaded: bool)
        ensures
            loaded == self@.loaded_from_file,
    {
        self.loaded_from_file
    }

    pub fn capacity(&self) -> (capacity: usize)
        ensures
            capacity == self@.capacity,
    {
        self.capacity
    }

    /// How many records in a row did not fit the columns.
    pub fn failures(&self) -> (failures: usize)
        ensures
            failures == self@.failures,
    {
        self.failures
    }
}

impl Default for DataContainer {
    /// An empty store without a bound that a machine could reach.
    fn default() -> (store: DataContainer)
        ensures
            store.wf(),
            store@.columns.len() == 0,
            store@.streams.len() == 0,
            store@.raw_traffic.len() == 0,
            !store@.loaded_from_file,
            store@.failures == 0,
            store@.capacity == usize::MAX,
            store@.raw_capacity == usize::MAX,
            store@.raw_enabled,
            store@.labels.len() == 0,
    {
        DataContainer::new(usize::MAX, usize::MAX)
    }
}

} // verus!

verus! {

/// The name of the column at `index`: the label given for that place, or,
/// where none was given, the word `Column` and the place.
pub open spec fn column_label(labels: Seq<Seq<char>>, index: nat) -> Seq<char> {
    if index < labels.len() {
        labels[index as int]
    } else {
        seq!['C', 'o', 'l', 'u', 'm', 'n', ' '] + decimal(index)
    }
}

/// The first place at which a stream named `id` stands, if there is one.
pub open spec fn find_stream(streams: Seq<StreamView>, id: Seq<char>) -> Option<int>
    decreases streams.len(),
{
    if streams.len() == 0 {
        None
    } else if streams.last().id == id && find_stream(streams.drop_last(), id) is None {
        Some(streams.len() - 1)
    } else {
        find_stream(streams.drop_last(), id)
    }
}

/// A column that starts out with one sample.
pub open spec fn fresh_column(store: StoreView, index: nat, sample: SampleView) -> ColumnView {
    ColumnView {
        name: column_label(store.labels, index),
        samples: push_bounded(Seq::empty(), sample, store.capacity),
    }
}

/// `column` after `sample` arrived.
pub open spec fn grown(column: ColumnView, sample: SampleView, capacity: nat) -> ColumnView {
    ColumnView { name: column.name, samples: push_bounded(column.samples, sample, capacity) }
}

/// The store after a stream was added for `record`: one new column for
/// each of its values, behind the columns that were there.
pub open spec fn extended(store: StoreView, record: RecordView, time: u128, absolute_time: u128)
    -> StoreView {
    StoreView {
        columns: store.columns + Seq::new(
            record.values.len(),
            |i: int|
                fresh_column(
                    store,
                    (store.columns.len() + i) as nat,
                    SampleView { time, absolute_time, value: record.values[i] },
                ),
        ),
        streams: store.streams.push(
            StreamView { id: record.id, start: store.columns.len(), width: record.values.len() },
        ),
        failures: 0,
        ..store
    }
}

/// The store after the columns from `start` on took one of `values` each.
/// No other column changes.
pub open spec fn appended(
    store: StoreView,
    start: nat,
    values: Seq<Seq<char>>,
    time: u128,
    absolute_time: u128,
) -> StoreView {
    StoreView {
        columns: Seq::new(
            store.columns.len(),
            |c: int|
                if start <= c < start + values.len() {
                    grown(
                        store.columns[c],
                        SampleView { time, absolute_time, value: values[c - start] },
                        store.capacity,
                    )
                } else {
                    store.columns[c]
                },
        ),
        failures: 0,
        ..store
    }
}

/// The store after a record that did not fit.
pub open spec fn missed(store: StoreView) -> StoreView {
    StoreView { failures: store.failures + 1, ..store }
}

/// The store without its columns and streams.
pub open spec fn discarded(store: StoreView) -> StoreView {
    StoreView { columns: Seq::empty(), streams: Seq::empty(), failures: 0, ..store }
}

/// The store laid out anew from `record`. A record without values leaves no
/// column.
pub open spec fn seeded(store: StoreView, record: RecordView, time: u128, absolute_time: u128)
    -> StoreView {
    if record.values.len() == 0 {
        discarded(store)
    } else {
        extended(discarded(store), record, time, absolute_time)
    }
}

/// What became of a record.
#[derive(Clone, Copy, Debug, PartialEq, Eq, Structural)]
pub enum Outcome {
    /// The store holds a file: nothing was taken.
    Paused,
    /// The columns were laid out anew from the record.
    Rebuilt,
    /// The values went to the columns that were there for them.
    Appended,
    /// The record named a stream for the first time and got new columns.
    Extended,
    /// The record did not fit the columns and was dropped.
    Missed,
}

/// What becomes of `record` in `store`.
pub open spec fn outcome_of(store: StoreView, record: RecordView) -> Outcome {
    if store.loaded_from_file {
        Outcome::Paused
    } else if store.columns.len() == 0 || store.failures > FAILURE_THRESHOLD {
        Outcome::Rebuilt
    } else if record.id.len() == 0 {
        if record.values.len() == store.columns.len() {
            Outcome::Appended
        } else {
            Outcome::Missed
        }
    } else {
        match find_stream(store.streams, record.id) {
            Some(k) => if record.values.len() == store.streams[k].width {
                Outcome::Appended
            } else {
                Outcome::Missed
            },
            None => Outcome::Extended,
        }
    }
}

/// The store after `record` arrived at the given times.
///
/// While the store holds a file, nothing changes. A store without columns,
/// or one that has seen more than `FAILURE_THRESHOLD` records in a row that
/// did not fit, is laid out anew from the record. Otherwise a record without
/// an identifier must have one value for each column, and a record of a known
/// stream one value for each column of that stream: the values are appended,
/// or else the record is dropped and counted. A record of a stream that is
/// not known yet gets new columns behind the others.
pub open spec fn absorbed(store: StoreView, record: RecordView, time: u128, absolute_time: u128)
    -> StoreView {
    match outcome_of(store, record) {
        Outcome::Paused => store,
        Outcome::Rebuilt => seeded(store, record, time, absolute_time),
        Outcome::Appended => if record.id.len() == 0 {
            appended(store, 0, record.values, time, absolute_time)
        } else {
            appended(
                store,
                store.streams[find_stream(store.streams, record.id).unwrap()].start,
                record.values,
                time,
                absolute_time,
            )
        },
        Outcome::Extended => extended(store, record, time, absolute_time),
        Outcome::Missed => missed(store),
    }
}

pub proof fn lemma_find_stream(streams: Seq<StreamView>, id: Seq<char>)
    ensures
        match find_stream(streams, id) {
            Some(k) => 0 <= k < streams.len() && streams[k].id == id && forall|j: int|
                0 <= j < k ==> (#[trigger] streams[j]).id != id,
            None => forall|j: int| 0 <= j < streams.len() ==> (#[trigger] streams[j]).id != id,
        },
    decreases streams.len(),
{
    if streams.len() > 0 {
        lemma_find_stream(streams.drop_last(), id);
        let front = streams.drop_last();
        assert forall|j: int| 0 <= j < front.len() implies front[j] == streams[j] by {}
        match find_stream(front, id) {
            Some(k) => {
                assert forall|j: int| 0 <= j < k implies (#[trigger] streams[j]).id != id by {
                    assert(front[j].id != id);
                }
            },
            None => {
                assert forall|j: int| 0 <= j < front.len() implies (#[trigger] streams[j]).id
                    != id by {
                    assert(front[j].id != id);
                }
            },
        }
    }
}

} // verus!

verus! {

impl DataContainer {
    /// The place of the stream named `id`.
    fn find(&self, id: &String) -> (found: Option<usize>)
        ensures
            match found {
                Some(k) => k < self.streams@.len() && find_stream(self@.streams, id@) == Some(
                    k as int,
                ),
                None => find_stream(self@.streams, id@) is None,
            },
    {
        let mut i: usize = 0;
        while i < self.streams.len()
            invariant
                i <= self.streams@.len(),
                find_stream(self@.streams.take(i as int), id@) is None,
            decreases self.streams.len() - i,
        {
            proof {
                assert(self@.streams.take(i + 1).drop_last() =~= self@.streams.take(i as int));
                assert(self@.streams.take(i + 1).last() == self.streams@[i as int]@);
            }
            if self.streams[i].id == *id {
                proof {
                    lemma_find_stream(self@.streams, id@);
                    lemma_find_stream(self@.streams.take(i as int), id@);
                    let found = find_stream(self@.streams, id@);
                    assert(self@.streams[i as int].id == id@);
                    assert(found is Some);
                    if found.unwrap() < i {
                        assert(self@.streams.take(i as int)[found.unwrap()].id == id@);
                    }
                }
                return Some(i);
            }
            i += 1;
        }
        proof {
            assert(self@.streams.take(i as int) =~= self@.streams);
        }
        None
    }

    /// The name for a new column at `index`.
    fn label(&self, index: usize) -> (name: String)
        ensures
            name@ == column_label(self@.labels, index as nat),
    {
        if index < self.labels.len() {
            self.labels[index].clone()
        } else {
            proof {
                reveal_strlit("Column ");
                assert("Column "@ =~= seq!['C', 'o', 'l', 'u', 'm', 'n', ' ']);
            }
            let mut name = "Column ".to_owned();
            push_decimal(&mut name, index as u128);
            name
        }
    }

    /// Adds a stream named `id` with one new column for each of `values`.
    fn extend(&mut self, id: String, values: &Vec<Number>, time: u128, absolute_time: u128)
        requires
            old(self).wf(),
            !old(self)@.loaded_from_file,
            values@.len() > 0,
            find_stream(old(self)@.streams, id@) is None,
        ensures
            final(self).wf(),
            final(self)@ == extended(
                old(self)@,
                RecordView { id: id@, values: number_views(values@) },
                time,
                absolute_time,
            ),
    {
        let ghost before = self@;
        let ghost record = RecordView { id: id@, values: number_views(values@) };
        let start = self.columns.len();
        let mut i: usize = 0;
        proof {
            assert(column_views(self.columns@) =~= before.columns + Seq::new(
                0,
                |j: int|
                    fresh_column(
                        before,
                        (before.columns.len() + j) as nat,
                        SampleView { time, absolute_time, value: record.values[j] },
                    ),
            ));
        }
        while i < values.len()
            invariant
                i <= values@.len(),
                record.values == number_views(values@),
                start == before.columns.len(),
                self@ == (StoreView { columns: self@.columns, ..before }),
                forall|c: int|
                    0 <= c < self@.columns.len() ==> numeric(
                        (#[trigger] self@.columns[c]).samples,
                    ) && self@.columns[c].samples.len() <= before.capacity,
                self@.columns == before.columns + Seq::new(
                    i as nat,
                    |j: int|
                        fresh_column(
                            before,
                            (before.columns.len() + j) as nat,
                            SampleView { time, absolute_time, value: record.values[j] },
                        ),
                ),
            decreases values.len() - i,
        {
            let name = self.label(self.columns.len());
            let mut column = Column::new(name);
            column.push(
                Sample { time, absolute_time, value: values[i].clone() },
                self.capacity,
            );
            proof {
                lemma_numeric_push(
                    Seq::empty(),
                    SampleView { time, absolute_time, value: record.values[i as int] },
                    before.capacity,
                );
            }
            let ghost columns_before = column_views(self.columns@);
            self.columns.push(column);
            proof {
                assert(column_views(self.columns@) =~= columns_before.push(column@));
                assert(column@ == fresh_column(
                    before,
                    (before.columns.len() + i) as nat,
                    SampleView { time, absolute_time, value: record.values[i as int] },
                ));
                assert(self@.columns =~= before.columns + Seq::new(
                    (i + 1) as nat,
                    |j: int|
                        fresh_column(
                            before,
                            (before.columns.len() + j) as nat,
                            SampleView { time, absolute_time, value: record.values[j] },
                        ),
                ));
            }
            i += 1;
        }
        let ghost streams_before = stream_views(self.streams@);
        let stream = Stream { id, start, width: values.len() };
        self.streams.push(stream);
        self.failures = 0;
        proof {
            assert(stream_views(self.streams@) =~= streams_before.push(stream@));
            let after = self@;
            lemma_find_stream(before.streams, id@);
            assert(streams_cover(after.streams, after.columns.len())) by {
                assert(after.streams.drop_last() =~= before.streams);
                assert forall|k: int| 0 <= k < after.streams.len() implies (
                #[trigger] after.streams[k]).width >= 1 && after.streams[k].start
                    == total_width(after.streams.take(k)) by {
                    if k < before.streams.len() {
                        assert(after.streams[k] == before.streams[k]);
                        assert(after.streams.take(k) =~= before.streams.take(k));
                    } else {
                        assert(after.streams.take(k) =~= before.streams);
                    }
                }
            }
            lemma_extended_is_synchronized(before, record, time, absolute_time);
            assert(streams_distinct(after.streams)) by {
                assert forall|j: int, k: int| 0 <= j < k < after.streams.len() implies (
                #[trigger] after.streams[j]).id != (#[trigger] after.streams[k]).id by {
                    assert(after.streams[j] == before.streams[j]);
                    if k < before.streams.len() {
                        assert(after.streams[k] == before.streams[k]);
                    }
                }
            }
        }
    }

    /// Gives the columns from `start` on one of `values` each.
    fn append(&mut self, start: usize, values: &Vec<Number>, time: u128, absolute_time: u128)
        requires
            old(self).wf(),
            !old(self)@.loaded_from_file,
            start + values@.len() <= old(self)@.columns.len(),
            whole_streams(old(self)@, start as nat, values@.len()),
        ensures
            final(self).wf(),
            final(self)@ == appended(
                old(self)@,
                start as nat,
                number_views(values@),
                time,
                absolute_time,
            ),
    {
        let ghost before = self@;
        let ghost texts = number_views(values@);
        let capacity = self.capacity;
        let width = self.columns.len();
        let mut i: usize = 0;
        proof {
            assert(self@.columns =~= partly_appended(before, start as nat, texts, 0, time, absolute_time));
        }
        while i < values.len()
            invariant
                i <= values@.len(),
                texts == number_views(values@),
                capacity == before.capacity,
                start + values@.len() <= before.columns.len(),
                self.columns@.len() == before.columns.len() == width,
                forall|k: int| 0 <= k < i ==> is_number(#[trigger] texts[k]),
                self@ == (StoreView { columns: self@.columns, ..before }),
                self@.columns == partly_appended(
                    before,
                    start as nat,
                    texts,
                    i as nat,
                    time,
                    absolute_time,
                ),
            decreases values.len() - i,
        {
            let ghost columns_before = self.columns@;
            let sample = Sample { time, absolute_time, value: values[i].clone() };
            self.columns[start + i].push(sample, capacity);
            proof {
                let earlier = partly_appended(
                    before,
                    start as nat,
                    texts,
                    i as nat,
                    time,
                    absolute_time,
                );
                let later = partly_appended(
                    before,
                    start as nat,
                    texts,
                    (i + 1) as nat,
                    time,
                    absolute_time,
                );
                assert(self.columns@.len() == columns_before.len());
                assert(column_views(columns_before) == earlier);
                assert(earlier[start + i] == before.columns[start + i]);
                assert forall|c: int| 0 <= c < before.columns.len() implies (
                #[trigger] self@.columns[c]) == later[c] by {
                    if c != start + i {
                        assert(self.columns@[c] == columns_before[c]);
                        assert(column_views(columns_before)[c] == columns_before[c]@);
                        assert(earlier[c] == later[c]);
                    }
                }
                assert(self@.columns =~= later);
            }
            i += 1;
        }
        self.failures = 0;
        proof {
            assert(partly_appended(
                before,
                start as nat,
                texts,
                texts.len(),
                time,
                absolute_time,
            ) =~= appended(before, start as nat, texts, time, absolute_time).columns);
            lemma_appended_is_well_formed(before, start as nat, texts, time, absolute_time);
        }
    }

    /// Takes `record`, which arrived at the given times, into the columns.
    pub fn absorb(&mut self, record: Record, time: u128, absolute_time: u128) -> (outcome:
        Outcome)
        requires
            old(self).wf(),
        ensures
            final(self).wf(),
            outcome == outcome_of(old(self)@, record@),
            final(self)@ == absorbed(old(self)@, record@, time, absolute_time),
    {
        let ghost record_view = record@;
        let (id, values) = record.into_parts();
        if self.loaded_from_file {
            return Outcome::Paused;
        }
        if self.columns.len() == 0 || self.failures > FAILURE_THRESHOLD {
            self.columns = Vec::new();
            self.streams = Vec::new();
            self.failures = 0;
            proof {
                assert(self@.columns =~= Seq::empty());
                assert(self@.streams =~= Seq::empty());
                assert(self@ == discarded(old(self)@));
            }
            if values.len() > 0 {
                self.extend(id, &values, time, absolute_time);
            }
            return Outcome::Rebuilt;
        }
        if id.as_str().is_empty() {
            if values.len() == self.columns.len() {
                proof {
                    lemma_all_streams_are_whole(self@);
                }
                self.append(0, &values, time, absolute_time);
                return Outcome::Appended;
            }
            self.failures = self.failures + 1;
            return Outcome::Missed;
        }
        match self.find(&id) {
            Some(k) => {
                if values.len() == self.streams[k].width {
                    proof {
                        lemma_stream_within(self@, k as int);
                        lemma_stream_is_whole(self@, k as int);
                    }
                    let start = self.streams[k].start;
                    self.append(start, &values, time, absolute_time);
                    Outcome::Appended
                } else {
                    self.failures = self.failures + 1;
                    Outcome::Missed
                }
            },
            None => {
                self.extend(id, &values, time, absolute_time);
                Outcome::Extended
            },
        }
    }
}

/// The first streams fill no more columns than all of them.
pub proof fn lemma_total_width_grows(streams: Seq<StreamView>, k: int)
    requires
        0 <= k <= streams.len(),
    ensures
        total_width(streams.take(k)) <= total_width(streams),
    decreases streams.len() - k,
{
    if k < streams.len() {
        lemma_total_width_grows(streams, k + 1);
        assert(streams.take(k + 1).drop_last() =~= streams.take(k));
    } else {
        assert(streams.take(k) =~= streams);
    }
}

/// Every stream lies within the columns.
pub proof fn lemma_stream_within(store: StoreView, k: int)
    requires
        streams_cover(store.streams, store.columns.len()),
        0 <= k < store.streams.len(),
    ensures
        store.streams[k].start + store.streams[k].width <= store.columns.len(),
{
    lemma_total_width_grows(store.streams, k + 1);
    assert(store.streams.take(k + 1).drop_last() =~= store.streams.take(k));
}

} // verus!

verus! {

/// The columns of a stream end before those of any later stream start: no
/// column belongs to two streams.
pub proof fn lemma_streams_are_apart(store: StoreView, j: int, k: int)
    requires
        streams_cover(store.streams, store.columns.len()),
        0 <= j < k < store.streams.len(),
    ensures
        store.streams[j].start + store.streams[j].width <= store.streams[k].start,
{
    let front = store.streams.take(k);
    lemma_total_width_grows(front, j + 1);
    assert(front.take(j + 1) =~= store.streams.take(j + 1));
    assert(store.streams.take(j + 1).drop_last() =~= store.streams.take(j));
    assert(store.streams.take(j + 1).last() == store.streams[j]);
}

/// Streams do not mix. A record of a known stream, with one value for each
/// column of that stream, reaches those columns, each value its own, and
/// leaves every other column and every stream as it was.
pub proof fn lemma_streams_do_not_mix(
    store: StoreView,
    record: RecordView,
    time: u128,
    absolute_time: u128,
)
    requires
        store_wf(store),
        record.id.len() > 0,
        outcome_of(store, record) == Outcome::Appended,
    ensures
        ({
            let k = find_stream(store.streams, record.id).unwrap();
            let stream = store.streams[k];
            let after = absorbed(store, record, time, absolute_time);
            &&& 0 <= k < store.streams.len()
            &&& stream.id == record.id
            &&& stream.start + stream.width <= store.columns.len()
            &&& after.streams == store.streams
            &&& after.columns.len() == store.columns.len()
            &&& forall|c: int|
                0 <= c < store.columns.len() ==> #[trigger] after.columns[c] == if stream.start
                    <= c < stream.start + stream.width {
                    grown(
                        store.columns[c],
                        SampleView { time, absolute_time, value: record.values[c - stream.start] },
                        store.capacity,
                    )
                } else {
                    store.columns[c]
                }
        }),
{
    lemma_find_stream(store.streams, record.id);
    let k = find_stream(store.streams, record.id).unwrap();
    lemma_stream_within(store, k);
}

/// A record that names a stream for the first time gets columns of its own
/// behind the others, and leaves the columns that were there as they were.
pub proof fn lemma_new_stream_stands_apart(
    store: StoreView,
    record: RecordView,
    time: u128,
    absolute_time: u128,
)
    requires
        store_wf(store),
        outcome_of(store, record) == Outcome::Extended,
    ensures
        ({
            let after = absorbed(store, record, time, absolute_time);
            &&& after.columns.len() == store.columns.len() + record.values.len()
            &&& after.streams.len() == store.streams.len() + 1
            &&& after.streams.last().id == record.id
            &&& after.streams.last().start == store.columns.len()
            &&& after.streams.last().width == record.values.len()
            &&& forall|c: int|
                0 <= c < store.columns.len() ==> #[trigger] after.columns[c] == store.columns[c]
            &&& forall|k: int|
                0 <= k < store.streams.len() ==> #[trigger] after.streams[k] == store.streams[k]
        }),
{
}

} // verus!

verus! {

/// The record of a payload without a number.
pub open spec fn noise() -> RecordView {
    RecordView { id: Seq::empty(), values: Seq::empty() }
}

/// The store after `count` records without a number arrived in a row.
pub open spec fn after_noise(store: StoreView, count: nat) -> StoreView
    decreases count,
{
    if count == 0 {
        store
    } else {
        absorbed(after_noise(store, (count - 1) as nat), noise(), 0, 0)
    }
}

/// Records without a number are counted until the count is over the
/// threshold; the next one takes the columns away, and from then on there
/// are none.
proof fn lemma_after_noise(store: StoreView, count: nat)
    requires
        store_wf(store),
        !store.loaded_from_file,
    ensures
        ({
            let quiet = after_noise(store, count);
            &&& store_wf(quiet)
            &&& quiet == StoreView {
                columns: quiet.columns,
                streams: quiet.streams,
                failures: quiet.failures,
                ..store
            }
            &&& quiet.columns.len() == 0 || (quiet.columns == store.columns && quiet.failures
                == store.failures + count)
        }),
    decreases count,
{
    if count > 0 {
        lemma_after_noise(store, (count - 1) as nat);
        let before = after_noise(store, (count - 1) as nat);
        let quiet = after_noise(store, count);
        assert(quiet == absorbed(before, noise(), 0, 0));
        if before.columns.len() == 0 || before.failures > FAILURE_THRESHOLD {
            assert(quiet == discarded(before));
            assert(total_width(quiet.streams) == 0);
        } else {
            assert(quiet == missed(before));
        }
    }
}

/// The columns find their way back. After more records in a row than the
/// threshold allows that carried no number, the next record lays the columns
/// out anew: the store then holds one column for each value of that record,
/// and each column holds that value and nothing else.
pub proof fn lemma_resync(
    store: StoreView,
    count: nat,
    record: RecordView,
    time: u128,
    absolute_time: u128,
)
    requires
        store_wf(store),
        !store.loaded_from_file,
        count > FAILURE_THRESHOLD,
    ensures
        ({
            let quiet = after_noise(store, count);
            let after = absorbed(quiet, record, time, absolute_time);
            &&& outcome_of(quiet, record) == Outcome::Rebuilt
            &&& after.failures == 0
            &&& after.columns.len() == record.values.len()
            &&& forall|c: int|
                0 <= c < record.values.len() ==> (#[trigger] after.columns[c]).samples
                    == push_bounded(
                    Seq::empty(),
                    SampleView { time, absolute_time, value: record.values[c] },
                    store.capacity,
                )
        }),
{
    lemma_after_noise(store, count);
}

} // verus!

verus! {

/// The times of a bounded series are the bounded times of the series.
pub proof fn lemma_stamps_bounded(samples: Seq<SampleView>, capacity: nat)
    ensures
        stamps(bounded(samples, capacity)) == bounded(stamps(samples), capacity),
{
    assert(stamps(bounded(samples, capacity)) =~= bounded(stamps(samples), capacity));
}

/// The times of a series after an arrival are its times after the arrival
/// of that time.
pub proof fn lemma_stamps_push(samples: Seq<SampleView>, sample: SampleView, capacity: nat)
    ensures
        stamps(push_bounded(samples, sample, capacity)) == push_bounded(
            stamps(samples),
            (sample.time, sample.absolute_time),
            capacity,
        ),
{
    assert(stamps(samples.push(sample)) =~= stamps(samples).push(
        (sample.time, sample.absolute_time),
    ));
    lemma_stamps_bounded(samples.push(sample), capacity);
}

/// A new stream keeps the columns synchronized.
pub proof fn lemma_extended_is_synchronized(
    store: StoreView,
    record: RecordView,
    time: u128,
    absolute_time: u128,
)
    requires
        streams_cover(store.streams, store.columns.len()),
        synchronized(store),
    ensures
        synchronized(extended(store, record, time, absolute_time)),
{
    let after = extended(store, record, time, absolute_time);
    assert forall|k: int, c: int|
        #![trigger after.streams[k], after.columns[c]]
        0 <= k < after.streams.len() && after.streams[k].start <= c < after.streams[k].start
            + after.streams[k].width implies stamps(after.columns[c].samples) == stamps(
        after.columns[after.streams[k].start as int].samples,
    ) by {
        if k < store.streams.len() {
            lemma_stream_within(store, k);
            assert(after.streams[k] == store.streams[k]);
            assert(after.columns[c] == store.columns[c]);
            let first = store.streams[k].start as int;
            assert(after.columns[first] == store.columns[first]);
            assert(stamps(store.columns[c].samples) == stamps(store.columns[first].samples));
        } else {
            let first = store.columns.len() as int;
            lemma_stamps_push(
                Seq::empty(),
                SampleView { time, absolute_time, value: record.values[c - first] },
                store.capacity,
            );
            lemma_stamps_push(
                Seq::empty(),
                SampleView { time, absolute_time, value: record.values[0] },
                store.capacity,
            );
        }
    }
}

/// Values for whole streams keep the columns synchronized.
pub proof fn lemma_appended_is_synchronized(
    store: StoreView,
    start: nat,
    values: Seq<Seq<char>>,
    time: u128,
    absolute_time: u128,
)
    requires
        streams_cover(store.streams, store.columns.len()),
        synchronized(store),
        whole_streams(store, start, values.len()),
        start + values.len() <= store.columns.len(),
    ensures
        synchronized(appended(store, start, values, time, absolute_time)),
{
    let after = appended(store, start, values, time, absolute_time);
    assert forall|k: int, c: int|
        #![trigger after.streams[k], after.columns[c]]
        0 <= k < after.streams.len() && after.streams[k].start <= c < after.streams[k].start
            + after.streams[k].width implies stamps(after.columns[c].samples) == stamps(
        after.columns[after.streams[k].start as int].samples,
    ) by {
        lemma_stream_within(store, k);
        let stream = store.streams[k];
        let first = stream.start as int;
        assert(stamps(store.columns[c].samples) == stamps(store.columns[first].samples));
        if start <= stream.start && stream.start + stream.width <= start + values.len() {
            lemma_stamps_push(
                store.columns[c].samples,
                SampleView { time, absolute_time, value: values[c - start] },
                store.capacity,
            );
            lemma_stamps_push(
                store.columns[first].samples,
                SampleView { time, absolute_time, value: values[first - start] },
                store.capacity,
            );
        } else {
            assert(after.columns[c] == store.columns[c]);
            assert(after.columns[first] == store.columns[first]);
        }
    }
}

/// The columns of every stream but the one at `k` lie apart from its
/// columns.
pub proof fn lemma_stream_is_whole(store: StoreView, k: int)
    requires
        streams_cover(store.streams, store.columns.len()),
        0 <= k < store.streams.len(),
    ensures
        whole_streams(store, store.streams[k].start, store.streams[k].width),
{
    assert forall|j: int| 0 <= j < store.streams.len() implies {
        let s = #[trigger] store.streams[j];
        ||| store.streams[k].start <= s.start && s.start + s.width <= store.streams[k].start
            + store.streams[k].width
        ||| s.start + s.width <= store.streams[k].start
        ||| store.streams[k].start + store.streams[k].width <= s.start
    } by {
        if j < k {
            lemma_streams_are_apart(store, j, k);
        } else if k < j {
            lemma_streams_are_apart(store, k, j);
        }
    }
}

/// All columns together are those of whole streams.
pub proof fn lemma_all_streams_are_whole(store: StoreView)
    requires
        streams_cover(store.streams, store.columns.len()),
    ensures
        whole_streams(store, 0, store.columns.len()),
{
    assert forall|j: int| 0 <= j < store.streams.len() implies {
        let s = #[trigger] store.streams[j];
        ||| 0 <= s.start && s.start + s.width <= 0 + store.columns.len()
        ||| s.start + s.width <= 0
        ||| 0 + store.columns.len() <= s.start
    } by {
        lemma_stream_within(store, j);
    }
}

/// New bounds keep the columns synchronized.
pub proof fn lemma_bounded_is_synchronized(store: StoreView, after: StoreView, capacity: nat)
    requires
        streams_cover(store.streams, store.columns.len()),
        synchronized(store),
        after.streams == store.streams,
        after.columns.len() == store.columns.len(),
        forall|c: int|
            0 <= c < store.columns.len() ==> (#[trigger] after.columns[c]).samples == bounded(
                store.columns[c].samples,
                capacity,
            ),
    ensures
        synchronized(after),
{
    assert forall|k: int, c: int|
        #![trigger after.streams[k], after.columns[c]]
        0 <= k < after.streams.len() && after.streams[k].start <= c < after.streams[k].start
            + after.streams[k].width implies stamps(after.columns[c].samples) == stamps(
        after.columns[after.streams[k].start as int].samples,
    ) by {
        lemma_stream_within(store, k);
        let first = store.streams[k].start as int;
        assert(stamps(store.columns[c].samples) == stamps(store.columns[first].samples));
        lemma_stamps_bounded(store.columns[c].samples, capacity);
        lemma_stamps_bounded(store.columns[first].samples, capacity);
        assert(after.columns[c].samples == bounded(store.columns[c].samples, capacity));
        assert(after.columns[first].samples == bounded(store.columns[first].samples, capacity));
    }
}

} // verus!

verus! {

/// The columns when the first `done` of `values` have reached theirs.
pub open spec fn partly_appended(
    store: StoreView,
    start: nat,
    values: Seq<Seq<char>>,
    done: nat,
    time: u128,
    absolute_time: u128,
) -> Seq<ColumnView> {
    Seq::new(
        store.columns.len(),
        |c: int|
            if start <= c < start + done {
                grown(
                    store.columns[c],
                    SampleView { time, absolute_time, value: values[c - start] },
                    store.capacity,
                )
            } else {
                store.columns[c]
            },
    )
}

/// Numbers for whole streams leave the store in order.
pub proof fn lemma_appended_is_well_formed(
    store: StoreView,
    start: nat,
    values: Seq<Seq<char>>,
    time: u128,
    absolute_time: u128,
)
    requires
        store_wf(store),
        !store.loaded_from_file,
        start + values.len() <= store.columns.len(),
        whole_streams(store, start, values.len()),
        forall|k: int| 0 <= k < values.len() ==> is_number(#[trigger] values[k]),
    ensures
        store_wf(appended(store, start, values, time, absolute_time)),
{
    let after = appended(store, start, values, time, absolute_time);
    lemma_appended_is_synchronized(store, start, values, time, absolute_time);
    assert forall|c: int| 0 <= c < after.columns.len() implies numeric(
        (#[trigger] after.columns[c]).samples,
    ) && after.columns[c].samples.len() <= after.capacity by {
        assert(numeric(store.columns[c].samples));
        assert(store.columns[c].samples.len() <= store.capacity);
        if start <= c < start + values.len() {
            assert(is_number(values[c - start]));
            lemma_numeric_push(
                store.columns[c].samples,
                SampleView { time, absolute_time, value: values[c - start] },
                store.capacity,
            );
        }
    }
}

} // verus!
