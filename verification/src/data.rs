use vstd::prelude::*;
use std::collections::VecDeque;
use std::time::{SystemTime, UNIX_EPOCH};
use crate::number::Number;

verus! {

/// The direction in which a packet went over the line.
#[derive(Clone, Copy, Debug, PartialEq, Eq, Structural)]
pub enum SerialDirection {
    Send,
    Receive,
}

/// The four letters that stand for a direction in the console.
pub open spec fn direction_label(direction: SerialDirection) -> Seq<char> {
    match direction {
        SerialDirection::Send => seq!['S', 'E', 'N', 'D'],
        SerialDirection::Receive => seq!['R', 'E', 'C', 'V'],
    }
}

impl SerialDirection {
    /// `SEND` or `RECV`.
    pub fn to_string(&self) -> (label: String)
        ensures
            label@ == direction_label(*self),
    {
        match self {
            SerialDirection::Send => {
                proof {
                    reveal_strlit("SEND");
                    assert("SEND"@ =~= direction_label(*self));
                }
                "SEND".to_owned()
            },
            SerialDirection::Receive => {
                proof {
                    reveal_strlit("RECV");
                    assert("RECV"@ =~= direction_label(*self));
                }
                "RECV".to_owned()
            },
        }
    }
}

/// Milliseconds since the Unix epoch, read from the system clock
/// (`SystemTime::now`); zero where the clock stands before the epoch.
/// Nothing is promised of the value: the clock may be set at any time.
#[verifier::external_body]
pub fn get_epoch_ms() -> (ms: u128) {
    SystemTime::now().duration_since(UNIX_EPOCH).map_or(0, |since| since.as_millis())
}

/// One unit of traffic: a line that was received, or a command that was sent.
#[derive(Debug)]
pub struct Packet {
    /// Milliseconds since the connection was made.
    pub relative_time: u128,
    /// Milliseconds since the Unix epoch.
    pub absolute_time: u128,
    pub direction: SerialDirection,
    pub payload: String,
}

/// What a packet holds.
pub struct PacketView {
    pub relative_time: u128,
    pub absolute_time: u128,
    pub direction: SerialDirection,
    pub payload: Seq<char>,
}

impl View for Packet {
    type V = PacketView;

    open spec fn view(&self) -> PacketView {
        PacketView {
            relative_time: self.relative_time,
            absolute_time: self.absolute_time,
            direction: self.direction,
            payload: self.payload@,
        }
    }
}

impl Clone for Packet {
    fn clone(&self) -> (r: Packet)
        ensures
            r@ == self@,
    {
        Packet {
            relative_time: self.relative_time,
            absolute_time: self.absolute_time,
            direction: self.direction,
            payload: self.payload.clone(),
        }
    }
}

impl Default for Packet {
    /// An empty command, sent now, at the start of a connection.
    fn default() -> (packet: Packet)
        ensures
            packet.relative_time == 0,
            packet.direction == SerialDirection::Send,
            packet.payload@ == Seq::<char>::empty(),
    {
        Packet {
            relative_time: 0,
            absolute_time: get_epoch_ms(),
            direction: SerialDirection::Send,
            payload: String::new(),
        }
    }
}

/// One value of a series with the two times at which it arrived.
#[derive(Debug)]
pub struct Sample {
    pub time: u128,
    pub absolute_time: u128,
    pub value: Number,
}

/// What a sample holds.
pub struct SampleView {
    pub time: u128,
    pub absolute_time: u128,
    pub value: Seq<char>,
}

impl View for Sample {
    type V = SampleView;

    open spec fn view(&self) -> SampleView {
        SampleView { time: self.time, absolute_time: self.absolute_time, value: self.value@ }
    }
}

impl Clone for Sample {
    fn clone(&self) -> (r: Sample)
        ensures
            r@ == self@,
    {
        Sample { time: self.time, absolute_time: self.absolute_time, value: self.value.clone() }
    }
}

/// `samples` cut down to its last `capacity` items.
pub open spec fn bounded<T>(samples: Seq<T>, capacity: nat) -> Seq<T> {
    if samples.len() > capacity {
        samples.skip(samples.len() - capacity)
    } else {
        samples
    }
}

/// `samples` after `sample` arrived in a buffer that holds `capacity` items.
pub open spec fn push_bounded<T>(samples: Seq<T>, sample: T, capacity: nat) -> Seq<T> {
    bounded(samples.push(sample), capacity)
}

/// `samples` after each of `arrivals` arrived in turn.
pub open spec fn feed_bounded<T>(samples: Seq<T>, arrivals: Seq<T>, capacity: nat) -> Seq<T>
    decreases arrivals.len(),
{
    if arrivals.len() == 0 {
        samples
    } else {
        push_bounded(feed_bounded(samples, arrivals.drop_last(), capacity), arrivals.last(), capacity)
    }
}

/// A buffer that was within its bound holds, after any arrivals, the last
/// `capacity` items of all that it was given, in the order of their arrival.
pub proof fn lemma_ring_keeps_latest<T>(samples: Seq<T>, arrivals: Seq<T>, capacity: nat)
    requires
        samples.len() <= capacity,
    ensures
        feed_bounded(samples, arrivals, capacity) == bounded(samples + arrivals, capacity),
        feed_bounded(samples, arrivals, capacity).len() <= capacity,
    decreases arrivals.len(),
{
    if arrivals.len() == 0 {
        assert(samples + arrivals =~= samples);
    } else {
        let earlier = arrivals.drop_last();
        lemma_ring_keeps_latest(samples, earlier, capacity);
        assert(samples + arrivals =~= (samples + earlier).push(arrivals.last()));
        assert(bounded(bounded(samples + earlier, capacity).push(arrivals.last()), capacity)
            =~= bounded((samples + earlier).push(arrivals.last()), capacity));
    }
}

/// An empty buffer of capacity `C` that is given `N >= C` items holds exactly
/// `C` items: the last `C` that arrived, in the order of their arrival.
pub proof fn lemma_ring_bound<T>(arrivals: Seq<T>, capacity: nat)
    requires
        arrivals.len() >= capacity,
    ensures
        feed_bounded(Seq::<T>::empty(), arrivals, capacity).len() == capacity,
        feed_bounded(Seq::<T>::empty(), arrivals, capacity) == arrivals.skip(
            arrivals.len() - capacity,
        ),
{
    lemma_ring_keeps_latest(Seq::<T>::empty(), arrivals, capacity);
    assert(Seq::<T>::empty() + arrivals =~= arrivals);
    assert(arrivals.skip(0) =~= arrivals);
}

} // verus!

verus! {

/// What each of `samples` holds.
pub open spec fn sample_views(samples: Seq<Sample>) -> Seq<SampleView> {
    samples.map_values(|s: Sample| s@)
}

/// A named series: samples in the order of their arrival.
#[derive(Debug)]
pub struct Column {
    pub(crate) name: String,
    pub(crate) samples: VecDeque<Sample>,
}

/// What a column holds.
pub struct ColumnView {
    pub name: Seq<char>,
    pub samples: Seq<SampleView>,
}

impl View for Column {
    type V = ColumnView;

    open(crate) spec fn view(&self) -> ColumnView {
        ColumnView { name: self.name@, samples: sample_views(self.samples@) }
    }
}

impl Column {
    /// An empty column.
    pub fn new(name: String) -> (column: Column)
        ensures
            column@.name == name@,
            column@.samples == Seq::<SampleView>::empty(),
    {
        let column = Column { name, samples: VecDeque::new() };
        proof {
            assert(column@.samples =~= Seq::<SampleView>::empty());
        }
        column
    }

    pub fn name(&self) -> (name: &str)
        ensures
            name@ == self@.name,
    {
        self.name.as_str()
    }

    /// The number of samples.
    pub fn len(&self) -> (n: usize)
        ensures
            n == self@.samples.len(),
    {
        self.samples.len()
    }

    /// The sample at `index`, counted from the oldest.
    pub fn get(&self, index: usize) -> (sample: Option<&Sample>)
        ensures
            index < self@.samples.len() ==> sample is Some && sample.unwrap()@
                == self@.samples[index as int],
            index >= self@.samples.len() ==> sample is None,
    {
        if index < self.samples.len() {
            Some(&self.samples[index])
        } else {
            None
        }
    }

    /// Lets the oldest samples leave until no more than `capacity` are held.
    pub fn bound(&mut self, capacity: usize)
        ensures
            final(self)@.name == old(self)@.name,
            final(self)@.samples == bounded(old(self)@.samples, capacity as nat),
    {
        let ghost all = old(self)@.samples;
        proof {
            assert(all.skip(0) =~= all);
        }
        while self.samples.len() > capacity
            invariant
                self.name == old(self).name,
                sample_views(self.samples@).len() <= all.len(),
                sample_views(self.samples@) == all.skip(
                    all.len() - sample_views(self.samples@).len(),
                ),
                self.samples@.len() >= capacity || self.samples@.len() == all.len(),
            decreases self.samples.len(),
        {
            let ghost before = self.samples@;
            self.samples.pop_front();
            proof {
                assert(sample_views(self.samples@) =~= sample_views(before).skip(1));
                assert(all.skip(all.len() - sample_views(before).len()).skip(1) =~= all.skip(
                    all.len() - sample_views(self.samples@).len(),
                ));
            }
        }
    }

    /// Adds `sample` as the newest one and lets none leave.
    pub(crate) fn push_unbounded(&mut self, sample: Sample)
        ensures
            final(self)@.name == old(self)@.name,
            final(self)@.samples == old(self)@.samples.push(sample@),
    {
        self.samples.push_back(sample);
        proof {
            assert(sample_views(self.samples@) =~= old(self)@.samples.push(sample@));
        }
    }

    /// Adds `sample` as the newest one. Where more than `capacity` samples
    /// are then held, the oldest leave.
    pub fn push(&mut self, sample: Sample, capacity: usize)
        ensures
            final(self)@.name == old(self)@.name,
            final(self)@.samples == push_bounded(old(self)@.samples, sample@, capacity as nat),
    {
        let ghost pushed = old(self)@.samples.push(sample@);
        self.samples.push_back(sample);
        proof {
            assert(sample_views(self.samples@) =~= pushed);
        }
        while self.samples.len() > capacity
            invariant
                self.name == old(self).name,
                sample_views(self.samples@).len() <= pushed.len(),
                sample_views(self.samples@) == pushed.skip(
                    pushed.len() - sample_views(self.samples@).len(),
                ),
                self.samples@.len() >= capacity || self.samples@.len() == pushed.len(),
            decreases self.samples.len(),
        {
            let ghost before = self.samples@;
            self.samples.pop_front();
            proof {
                assert(sample_views(self.samples@) =~= sample_views(before).skip(1));
                assert(pushed.skip(pushed.len() - sample_views(before).len()).skip(1)
                    =~= pushed.skip(pushed.len() - sample_views(self.samples@).len()));
            }
        }
        proof {
            if pushed.len() <= capacity {
                assert(pushed.skip(0) =~= pushed);
            }
        }
    }
}

impl Clone for Column {
    fn clone(&self) -> (r: Column)
        ensures
            r@ == self@,
    {
        let mut samples: VecDeque<Sample> = VecDeque::new();
        let mut i: usize = 0;
        while i < self.samples.len()
            invariant
                i <= self.samples@.len(),
                sample_views(samples@) == sample_views(self.samples@).take(i as int),
            decreases self.samples.len() - i,
        {
            let sample = self.samples[i].clone();
            let ghost before = sample_views(samples@);
            samples.push_back(sample);
            proof {
                assert(sample_views(samples@) =~= before.push(sample@));
                assert(sample_views(self.samples@).take(i + 1) =~= sample_views(
                    self.samples@,
                ).take(i as int).push(self.samples@[i as int]@));
            }
            i += 1;
        }
        proof {
            assert(sample_views(self.samples@).take(i as int) =~= sample_views(self.samples@));
        }
        Column { name: self.name.clone(), samples }
    }
}

} // verus!
