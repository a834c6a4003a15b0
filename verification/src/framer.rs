use vstd::prelude::*;

verus! {

pub const CR: u8 = 13;

pub const LF: u8 = 10;

pub const NUL: u8 = 0;

/// The place of the first pair `a`, `b` in `buf`, or the length of `buf`
/// where it holds no such pair.
pub open spec fn find_pair(buf: Seq<u8>, a: u8, b: u8) -> int
    decreases buf.len(),
{
    if buf.len() < 2 {
        buf.len() as int
    } else if buf[0] == a && buf[1] == b {
        0
    } else {
        1 + find_pair(buf.drop_first(), a, b)
    }
}

/// The pair `a`, `b` stands at `at` in `buf`.
pub open spec fn pair_at(buf: Seq<u8>, at: int, a: u8, b: u8) -> bool {
    0 <= at && at + 1 < buf.len() && buf[at] == a && buf[at + 1] == b
}

/// `buf` holds the pair `a`, `b`.
pub open spec fn has_pair(buf: Seq<u8>, a: u8, b: u8) -> bool {
    find_pair(buf, a, b) + 2 <= buf.len()
}

/// The lines and the rest of a buffer.
pub struct Framed {
    /// The lines, from first to last.
    pub lines: Seq<Seq<u8>>,
    /// What stands behind the last of them.
    pub rest: Seq<u8>,
}

/// `buf` cut at each pair `a`, `b`, from left to right.
pub open spec fn split_on(buf: Seq<u8>, a: u8, b: u8) -> Framed
    decreases buf.len(),
{
    let at = find_pair(buf, a, b);
    if 0 <= at && at + 2 <= buf.len() {
        let tail = split_on(buf.skip(at + 2), a, b);
        Framed { lines: seq![buf.take(at)] + tail.lines, rest: tail.rest }
    } else {
        Framed { lines: Seq::empty(), rest: buf }
    }
}

/// The place of the first byte `b` in `buf`, or the length of `buf` where
/// it holds none.
pub open spec fn find_byte(buf: Seq<u8>, b: u8) -> int
    decreases buf.len(),
{
    if buf.len() == 0 || buf[0] == b {
        0
    } else {
        1 + find_byte(buf.drop_first(), b)
    }
}

/// The lines of one unit, that is of the bytes up to and with a line feed.
/// Where the unit holds a carriage return followed by a line feed, that
/// pair ends each line; otherwise two zero bytes in a row do. What stands
/// behind the last delimiter is a line too, unless it is empty.
pub open spec fn unit_lines(unit: Seq<u8>) -> Seq<Seq<u8>> {
    let cut = if has_pair(unit, CR, LF) {
        split_on(unit, CR, LF)
    } else {
        split_on(unit, NUL, NUL)
    };
    if cut.rest.len() > 0 {
        cut.lines.push(cut.rest)
    } else {
        cut.lines
    }
}

/// The lines of a buffer: those of each of its units, unit after unit. What
/// stands behind the last line feed is no unit yet.
pub open spec fn framed(buf: Seq<u8>) -> Framed
    decreases buf.len(),
{
    let at = find_byte(buf, LF);
    if 0 <= at < buf.len() {
        let tail = framed(buf.skip(at + 1));
        Framed { lines: unit_lines(buf.take(at + 1)) + tail.lines, rest: tail.rest }
    } else {
        Framed { lines: Seq::empty(), rest: buf }
    }
}

pub proof fn lemma_find_byte(buf: Seq<u8>, b: u8, at: int)
    requires
        0 <= at <= buf.len(),
        forall|j: int| 0 <= j < at ==> buf[j] != b,
        at < buf.len() ==> buf[at] == b,
    ensures
        find_byte(buf, b) == at,
    decreases at,
{
    if at > 0 {
        lemma_find_byte(buf.drop_first(), b, at - 1);
    }
}

pub proof fn lemma_find_byte_bounds(buf: Seq<u8>, b: u8)
    ensures
        0 <= find_byte(buf, b) <= buf.len(),
        forall|j: int| 0 <= j < find_byte(buf, b) ==> buf[j] != b,
        find_byte(buf, b) < buf.len() ==> buf[find_byte(buf, b)] == b,
    decreases buf.len(),
{
    if buf.len() > 0 && buf[0] != b {
        let tail = buf.drop_first();
        lemma_find_byte_bounds(tail, b);
        assert forall|j: int| 0 <= j < find_byte(buf, b) implies buf[j] != b by {
            if j > 0 {
                assert(tail[j - 1] == buf[j]);
            }
        }
    }
}

pub proof fn lemma_find_pair(buf: Seq<u8>, a: u8, b: u8, at: int)
    requires
        0 <= at <= buf.len(),
        forall|j: int| 0 <= j < at ==> !#[trigger] pair_at(buf, j, a, b),
        at + 2 <= buf.len() ==> pair_at(buf, at, a, b),
        at + 2 > buf.len() ==> at == buf.len(),
    ensures
        find_pair(buf, a, b) == at,
    decreases buf.len(),
{
    if buf.len() >= 2 && at > 0 {
        let tail = buf.drop_first();
        assert forall|j: int| 0 <= j < at - 1 implies !#[trigger] pair_at(tail, j, a, b) by {
            assert(!pair_at(buf, j + 1, a, b));
        }
        assert(!pair_at(buf, 0, a, b));
        lemma_find_pair(tail, a, b, at - 1);
    }
}

/// A pair stands in the tail of a buffer where it stands in the buffer.
pub proof fn lemma_pairs_skip(buf: Seq<u8>, from: int, a: u8, b: u8)
    requires
        0 <= from <= buf.len(),
    ensures
        forall|j: int|
            0 <= j ==> #[trigger] pair_at(buf.skip(from), j, a, b) == pair_at(buf, from + j, a, b),
{
}

/// What each of `lines` holds.
pub open spec fn line_views(lines: Seq<Vec<u8>>) -> Seq<Seq<u8>> {
    lines.map_values(|line: Vec<u8>| line@)
}

/// The place of the first pair `a`, `b` at or behind `from`, or the length
/// of `buf`.
fn find(buf: &Vec<u8>, from: usize, a: u8, b: u8) -> (at: usize)
    requires
        from <= buf.len(),
    ensures
        from <= at <= buf.len(),
        at < buf.len() ==> at + 2 <= buf.len(),
        at - from == find_pair(buf@.skip(from as int), a, b),
{
    let mut at: usize = from;
    while at < buf.len()
        invariant
            from <= at <= buf.len(),
            forall|j: int| from <= j < at ==> !#[trigger] pair_at(buf@, j, a, b),
        decreases buf.len() - at,
    {
        if at + 1 < buf.len() && buf[at] == a && buf[at + 1] == b {
            proof {
                lemma_pairs_skip(buf@, from as int, a, b);
                lemma_find_pair(buf@.skip(from as int), a, b, at - from);
            }
            return at;
        }
        at += 1;
    }
    proof {
        lemma_pairs_skip(buf@, from as int, a, b);
        lemma_find_pair(buf@.skip(from as int), a, b, at - from);
    }
    at
}

/// A copy of `buf[from..to]`.
fn copy_bytes(buf: &Vec<u8>, from: usize, to: usize) -> (out: Vec<u8>)
    requires
        from <= to <= buf.len(),
    ensures
        out@ == buf@.subrange(from as int, to as int),
{
    let mut out: Vec<u8> = Vec::new();
    let mut i: usize = from;
    while i < to
        invariant
            from <= i <= to <= buf.len(),
            out@ == buf@.subrange(from as int, i as int),
        decreases to - i,
    {
        out.push(buf[i]);
        i += 1;
    }
    out
}

/// Cuts the bytes that a device sends into lines, however the reads cut them.
#[derive(Debug)]
pub struct Framer {
    pending: Vec<u8>,
}

impl View for Framer {
    type V = Seq<u8>;

    /// The bytes that arrived behind the last line feed.
    closed spec fn view(&self) -> Seq<u8> {
        self.pending@
    }
}

/// The place of the first line feed at or behind `from`, or the length of
/// `buf`.
fn find_line_feed(buf: &Vec<u8>, from: usize) -> (at: usize)
    requires
        from <= buf.len(),
    ensures
        from <= at <= buf.len(),
        at - from == find_byte(buf@.skip(from as int), LF),
{
    let mut at: usize = from;
    while at < buf.len() && buf[at] != LF
        invariant
            from <= at <= buf.len(),
            forall|j: int| from <= j < at ==> buf@[j] != LF,
        decreases buf.len() - at,
    {
        at += 1;
    }
    proof {
        lemma_find_byte(buf@.skip(from as int), LF, at - from);
    }
    at
}

/// Adds the lines of the unit `buf[from..to]` to `lines`.
fn push_unit_lines(lines: &mut Vec<Vec<u8>>, buf: &Vec<u8>, from: usize, to: usize)
    requires
        from <= to <= buf.len(),
    ensures
        line_views(final(lines)@) == line_views(old(lines)@) + unit_lines(
            buf@.subrange(from as int, to as int),
        ),
{
    let unit = copy_bytes(buf, from, to);
    let ghost all = unit@;
    let ghost start_lines = line_views(lines@);
    proof {
        assert(all.skip(0) =~= all);
    }
    let first = find(&unit, 0, CR, LF);
    let (a, b) = if first < unit.len() {
        (CR, LF)
    } else {
        (NUL, NUL)
    };
    let mut start: usize = 0;
    proof {
        assert(start_lines + split_on(all, a, b).lines =~= start_lines + Seq::empty() + split_on(
            all,
            a,
            b,
        ).lines);
    }
    let ghost mut cut: Seq<Seq<u8>> = Seq::empty();
    loop
        invariant
            all == unit@,
            start <= all.len(),
            line_views(lines@) == start_lines + cut,
            split_on(all, a, b).lines == cut + split_on(all.skip(start as int), a, b).lines,
            split_on(all, a, b).rest == split_on(all.skip(start as int), a, b).rest,
        ensures
            all == unit@,
            start <= all.len(),
            line_views(lines@) == start_lines + split_on(all, a, b).lines,
            split_on(all, a, b).rest == all.skip(start as int),
        decreases all.len() - start,
    {
        let at = find(&unit, start, a, b);
        if at >= unit.len() {
            proof {
                assert(cut + Seq::<Seq<u8>>::empty() =~= cut);
            }
            break ;
        }
        let line = copy_bytes(&unit, start, at);
        let ghost before = line_views(lines@);
        lines.push(line);
        proof {
            let rest = all.skip(start as int);
            assert(rest.take(at - start) =~= all.subrange(start as int, at as int));
            assert(rest.skip(at - start + 2) =~= all.skip(at + 2));
            assert(line_views(lines@) =~= before.push(line@));
            assert(cut + (seq![line@] + split_on(all.skip(at + 2), a, b).lines) =~= cut.push(
                line@,
            ) + split_on(all.skip(at + 2), a, b).lines);
            assert(start_lines + cut.push(line@) =~= (start_lines + cut).push(line@));
            cut = cut.push(line@);
        }
        start = at + 2;
    }
    if start < unit.len() {
        let rest = copy_bytes(&unit, start, unit.len());
        let ghost before = line_views(lines@);
        lines.push(rest);
        proof {
            assert(all.subrange(start as int, all.len() as int) =~= all.skip(start as int));
            assert(line_views(lines@) =~= before.push(rest@));
            assert(start_lines + split_on(all, a, b).lines.push(rest@) =~= (start_lines
                + split_on(all, a, b).lines).push(rest@));
        }
    }
}

impl Framer {
    /// A framer that holds nothing.
    pub fn new() -> (framer: Framer)
        ensures
            framer@ == Seq::<u8>::empty(),
    {
        Framer { pending: Vec::new() }
    }

    /// The bytes that wait for their line feed.
    pub fn pending(&self) -> (bytes: &Vec<u8>)
        ensures
            bytes@ == self@,
    {
        &self.pending
    }

    /// Takes the bytes of one read and hands out the lines that are now
    /// complete: the lines of what was held together with `chunk`. What stands
    /// behind the last line feed is held for the next read.
    pub fn feed(&mut self, chunk: &[u8]) -> (lines: Vec<Vec<u8>>)
        ensures
            line_views(lines@) == framed(old(self)@ + chunk@).lines,
            final(self)@ == framed(old(self)@ + chunk@).rest,
    {
        let mut i: usize = 0;
        while i < chunk.len()
            invariant
                i <= chunk@.len(),
                self.pending@ == old(self)@ + chunk@.take(i as int),
            decreases chunk.len() - i,
        {
            self.pending.push(chunk[i]);
            proof {
                assert(self.pending@ =~= old(self)@ + chunk@.take(i + 1));
            }
            i += 1;
        }
        proof {
            assert(chunk@.take(i as int) =~= chunk@);
        }
        let ghost buf = self.pending@;
        let mut lines: Vec<Vec<u8>> = Vec::new();
        let mut start: usize = 0;
        proof {
            assert(buf.skip(0) =~= buf);
            assert(line_views(lines@) + framed(buf).lines =~= framed(buf).lines);
        }
        loop
            invariant
                buf == self.pending@,
                start <= buf.len(),
                framed(buf).lines == line_views(lines@) + framed(buf.skip(start as int)).lines,
                framed(buf).rest == framed(buf.skip(start as int)).rest,
            ensures
                buf == self.pending@,
                start <= buf.len(),
                framed(buf).lines == line_views(lines@),
                framed(buf).rest == buf.skip(start as int),
            decreases buf.len() - start,
        {
            let at = find_line_feed(&self.pending, start);
            if at >= self.pending.len() {
                proof {
                    assert(line_views(lines@) + Seq::<Seq<u8>>::empty() =~= line_views(lines@));
                }
                break ;
            }
            let ghost before = line_views(lines@);
            push_unit_lines(&mut lines, &self.pending, start, at + 1);
            proof {
                let rest = buf.skip(start as int);
                assert(rest.take(at - start + 1) =~= buf.subrange(start as int, at + 1));
                assert(rest.skip(at - start + 1) =~= buf.skip(at + 1));
                let unit = unit_lines(rest.take(at - start + 1));
                assert(before + (unit + framed(buf.skip(at + 1)).lines) =~= (before + unit)
                    + framed(buf.skip(at + 1)).lines);
            }
            start = at + 1;
        }
        let rest = copy_bytes(&self.pending, start, self.pending.len());
        proof {
            assert(buf.subrange(start as int, buf.len() as int) =~= buf.skip(start as int));
        }
        self.pending = rest;
        lines
    }
}

} // verus!

verus! {

/// The bytes of a device that ends each of `lines` with a carriage return
/// and a line feed.
pub open spec fn stream_of(lines: Seq<Seq<u8>>) -> Seq<u8>
    decreases lines.len(),
{
    if lines.len() == 0 {
        Seq::empty()
    } else {
        lines[0] + seq![CR, LF] + stream_of(lines.drop_first())
    }
}

/// The chunks put together again.
pub open spec fn concat(chunks: Seq<Seq<u8>>) -> Seq<u8>
    decreases chunks.len(),
{
    if chunks.len() == 0 {
        Seq::empty()
    } else {
        chunks[0] + concat(chunks.drop_first())
    }
}

/// What a framer that holds `pending` hands out, and what it holds in the
/// end, when it is fed `chunks` one after the other.
pub open spec fn fed(pending: Seq<u8>, chunks: Seq<Seq<u8>>) -> Framed
    decreases chunks.len(),
{
    if chunks.len() == 0 {
        Framed { lines: Seq::empty(), rest: pending }
    } else {
        let first = framed(pending + chunks[0]);
        let later = fed(first.rest, chunks.drop_first());
        Framed { lines: first.lines + later.lines, rest: later.rest }
    }
}

/// A line that holds no line feed.
pub open spec fn plain(line: Seq<u8>) -> bool {
    forall|j: int| 0 <= j < line.len() ==> line[j] != LF
}

/// What is left behind the last line feed holds no line feed.
proof fn lemma_rest_is_plain(buf: Seq<u8>)
    ensures
        plain(framed(buf).rest),
    decreases buf.len(),
{
    let at = find_byte(buf, LF);
    lemma_find_byte_bounds(buf, LF);
    if at < buf.len() {
        lemma_rest_is_plain(buf.skip(at + 1));
    }
}

/// The lines of a buffer that holds no line feed: none.
proof fn lemma_framed_plain(buf: Seq<u8>)
    requires
        plain(buf),
    ensures
        framed(buf) == (Framed { lines: Seq::empty(), rest: buf }),
{
    lemma_find_byte(buf, LF, buf.len() as int);
}

/// Framing a buffer that grew gives the lines that it had, and then the
/// lines of what was left with what came.
proof fn lemma_framed_grows(buf: Seq<u8>, more: Seq<u8>)
    ensures
        framed(buf + more).lines == framed(buf).lines + framed(framed(buf).rest + more).lines,
        framed(buf + more).rest == framed(framed(buf).rest + more).rest,
    decreases buf.len(),
{
    let at = find_byte(buf, LF);
    lemma_find_byte_bounds(buf, LF);
    if at < buf.len() {
        let all = buf + more;
        assert forall|j: int| 0 <= j < at implies all[j] != LF by {
            assert(all[j] == buf[j]);
        }
        assert(all[at] == buf[at]);
        lemma_find_byte(all, LF, at);
        assert(all.skip(at + 1) =~= buf.skip(at + 1) + more);
        assert(all.take(at + 1) =~= buf.take(at + 1));
        lemma_framed_grows(buf.skip(at + 1), more);
        let unit = unit_lines(buf.take(at + 1));
        let tail = framed(buf.skip(at + 1));
        let grown = framed(tail.rest + more);
        assert(unit + (tail.lines + grown.lines) =~= (unit + tail.lines) + grown.lines);
    } else {
        assert(framed(buf).lines + framed(buf + more).lines =~= framed(buf + more).lines);
    }
}

/// However a stream is cut into chunks, a framer hands out the lines of the
/// whole stream.
proof fn lemma_fed_is_framed(pending: Seq<u8>, chunks: Seq<Seq<u8>>)
    requires
        plain(pending),
    ensures
        fed(pending, chunks) == framed(pending + concat(chunks)),
    decreases chunks.len(),
{
    if chunks.len() == 0 {
        assert(pending + concat(chunks) =~= pending);
        lemma_framed_plain(pending);
    } else {
        let first = chunks[0];
        let later = concat(chunks.drop_first());
        assert(pending + concat(chunks) =~= (pending + first) + later);
        lemma_rest_is_plain(pending + first);
        lemma_fed_is_framed(framed(pending + first).rest, chunks.drop_first());
        lemma_framed_grows(pending + first, later);
    }
}

/// The lines of the unit that a plain line makes with its delimiter: that
/// line.
proof fn lemma_unit_of_line(line: Seq<u8>)
    requires
        plain(line),
    ensures
        unit_lines(line + seq![CR, LF]) == seq![line],
{
    let unit = line + seq![CR, LF];
    let at = line.len() as int;
    assert(unit[at] == CR);
    assert(unit[at + 1] == LF);
    assert forall|j: int| 0 <= j < at implies !#[trigger] pair_at(unit, j, CR, LF) by {
        if j + 1 < at {
            assert(unit[j + 1] == line[j + 1]);
        }
    }
    assert(pair_at(unit, at, CR, LF));
    lemma_find_pair(unit, CR, LF, at);
    assert(unit.take(at) =~= line);
    assert(unit.skip(at + 2) =~= Seq::<u8>::empty());
    assert(split_on(unit.skip(at + 2), CR, LF).lines =~= Seq::<Seq<u8>>::empty());
    assert(seq![line] + Seq::<Seq<u8>>::empty() =~= seq![line]);
}

/// The lines of a stream of plain lines are those lines, and nothing is left.
proof fn lemma_framed_stream(lines: Seq<Seq<u8>>)
    requires
        forall|i: int| 0 <= i < lines.len() ==> plain(#[trigger] lines[i]),
    ensures
        framed(stream_of(lines)) == (Framed { lines, rest: Seq::empty() }),
    decreases lines.len(),
{
    if lines.len() == 0 {
        assert(lines =~= Seq::<Seq<u8>>::empty());
    } else {
        let line = lines[0];
        let tail = stream_of(lines.drop_first());
        let all = stream_of(lines);
        assert forall|i: int| 0 <= i < lines.drop_first().len() implies plain(
            #[trigger] lines.drop_first()[i],
        ) by {
            assert(lines.drop_first()[i] == lines[i + 1]);
        }
        lemma_framed_stream(lines.drop_first());
        assert(plain(line));
        let at = line.len() as int + 1;
        assert forall|j: int| 0 <= j < at implies all[j] != LF by {
            if j < line.len() {
                assert(all[j] == line[j]);
            } else {
                assert(all[j] == CR);
            }
        }
        assert(all[at] == LF);
        lemma_find_byte(all, LF, at);
        assert(all.take(at + 1) =~= line + seq![CR, LF]);
        assert(all.skip(at + 1) =~= tail);
        lemma_unit_of_line(line);
        assert(seq![line] + lines.drop_first() =~= lines);
    }
}

/// Framing does not depend on how the reads cut the stream: a framer that
/// starts empty and is fed, in chunks of any sizes, the stream of a device
/// that ends each line with a carriage return and a line feed, hands out
/// exactly those lines, byte for byte and in their order, and holds nothing
/// in the end. The lines hold no line feed themselves.
pub proof fn lemma_framing_ignores_chunking(lines: Seq<Seq<u8>>, chunks: Seq<Seq<u8>>)
    requires
        forall|i: int| 0 <= i < lines.len() ==> plain(#[trigger] lines[i]),
        concat(chunks) == stream_of(lines),
    ensures
        fed(Seq::empty(), chunks) == (Framed { lines, rest: Seq::empty() }),
{
    let nothing = Seq::<u8>::empty();
    assert(nothing + concat(chunks) =~= stream_of(lines));
    lemma_fed_is_framed(nothing, chunks);
    lemma_framed_stream(lines);
}

} // verus!
