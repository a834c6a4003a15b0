use vstd::prelude::*;
use crate::store::text_views;

verus! {

/// One place at which a pattern was found in a text: the bytes from
/// `pos_start` up to `pos_end`, and which of the patterns it was.
#[derive(Debug, Clone, Copy, PartialEq, Eq, Structural)]
pub struct HighLightElement {
    pub pos_start: usize,
    pub pos_end: usize,
    pub token_idx: usize,
}

impl HighLightElement {
    pub fn new(pos_start: usize, pos_end: usize, token_idx: usize) -> (element: Self)
        ensures
            element.start() == pos_start,
            element.end() == pos_end,
            element.token() == token_idx,
    {
        Self { pos_start, pos_end, token_idx }
    }

    pub open spec fn start(&self) -> usize {
        self.pos_start
    }

    pub open spec fn end(&self) -> usize {
        self.pos_end
    }

    pub open spec fn token(&self) -> usize {
        self.token_idx
    }

    pub fn pos_start(&self) -> (pos: usize)
        ensures
            pos == self.start(),
    {
        self.pos_start
    }

    pub fn pos_end(&self) -> (pos: usize)
        ensures
            pos == self.end(),
    {
        self.pos_end
    }

    pub fn token_idx(&self) -> (idx: usize)
        ensures
            idx == self.token(),
    {
        self.token_idx
    }
}

/// The places of the patterns among `patterns` that are found in `text`, in
/// rising order, as the regex set finds them; nothing where the set cannot
/// be built from the patterns.
pub uninterp spec fn regex_set_matches(patterns: Seq<Seq<char>>, text: Seq<char>) -> Option<
    Seq<usize>,
>;

/// The bounds, in bytes, of the matches of `pattern` in `text`, from left to
/// right, as the regex finds them; nothing where the pattern is none.
pub uninterp spec fn regex_matches(pattern: Seq<char>, text: Seq<char>) -> Option<
    Seq<(usize, usize)>,
>;

/// Builds a `regex::RegexSet` from `patterns` with `RegexSet::new` and asks
/// it with `RegexSet::matches` which of them are found in `text`.
#[verifier::external_body]
fn set_matches(patterns: &Vec<String>, text: &str) -> (which: Option<Vec<usize>>)
    ensures
        match which {
            Some(which) => regex_set_matches(text_views(patterns@), text@) == Some(which@),
            None => regex_set_matches(text_views(patterns@), text@) is None,
        },
{
    regex::RegexSet::new(patterns).ok().map(|set| set.matches(text).into_iter().collect())
}

/// Builds a `regex::Regex` from `pattern` with `Regex::new` and takes the
/// bounds of all its matches in `text` from `Regex::find_iter`.
#[verifier::external_body]
fn all_matches(pattern: &str, text: &str) -> (places: Option<Vec<(usize, usize)>>)
    ensures
        match places {
            Some(places) => regex_matches(pattern@, text@) == Some(places@),
            None => regex_matches(pattern@, text@) is None,
        },
{
    regex::Regex::new(pattern).ok().map(|re| re.find_iter(text).map(|m| (m.start(), m.end())).collect())
}

/// Those of `tokens` that are not empty, in their order.
pub open spec fn patterns_of(tokens: Seq<Seq<char>>) -> Seq<Seq<char>>
    decreases tokens.len(),
{
    if tokens.len() == 0 {
        Seq::empty()
    } else if tokens.last().len() > 0 {
        patterns_of(tokens.drop_last()).push(tokens.last())
    } else {
        patterns_of(tokens.drop_last())
    }
}

/// The matches at `places`, all of the pattern at `idx`.
pub open spec fn elements_of(places: Seq<(usize, usize)>, idx: usize) -> Seq<HighLightElement> {
    places.map_values(
        |p: (usize, usize)| HighLightElement { pos_start: p.0, pos_end: p.1, token_idx: idx },
    )
}

/// The matches of the pattern at `idx` in `text`.
pub open spec fn matches_of(patterns: Seq<Seq<char>>, text: Seq<char>, idx: usize) -> Seq<
    HighLightElement,
> {
    if idx < patterns.len() {
        match regex_matches(patterns[idx as int], text) {
            Some(places) => elements_of(places, idx),
            None => Seq::empty(),
        }
    } else {
        Seq::empty()
    }
}

/// The matches of the patterns at `which`, pattern after pattern.
pub open spec fn found_by(patterns: Seq<Seq<char>>, text: Seq<char>, which: Seq<usize>) -> Seq<
    HighLightElement,
>
    decreases which.len(),
{
    if which.len() == 0 {
        Seq::empty()
    } else {
        found_by(patterns, text, which.drop_last()) + matches_of(patterns, text, which.last())
    }
}

/// All matches of `patterns` in `text`: those of each pattern that is found
/// at all, pattern after pattern. Where one of the patterns is none, nothing
/// is found.
pub open spec fn found(patterns: Seq<Seq<char>>, text: Seq<char>) -> Seq<HighLightElement> {
    match regex_set_matches(patterns, text) {
        Some(which) => found_by(patterns, text, which),
        None => Seq::empty(),
    }
}

/// `a` stands before `b`, or at the same place: it starts earlier, or
/// starts where `b` starts and does not end later.
pub open spec fn in_order(a: HighLightElement, b: HighLightElement) -> bool {
    a.pos_start < b.pos_start || (a.pos_start == b.pos_start && a.pos_end <= b.pos_end)
}

/// `elements` with `e` behind all that do not stand after it.
pub open spec fn inserted(elements: Seq<HighLightElement>, e: HighLightElement) -> Seq<
    HighLightElement,
>
    decreases elements.len(),
{
    if elements.len() == 0 {
        seq![e]
    } else if in_order(elements.last(), e) {
        elements.push(e)
    } else {
        inserted(elements.drop_last(), e).push(elements.last())
    }
}

/// `elements` in the order of their places. Elements at the same place
/// keep their order.
pub open spec fn sorted_by_place(elements: Seq<HighLightElement>) -> Seq<HighLightElement>
    decreases elements.len(),
{
    if elements.len() == 0 {
        Seq::empty()
    } else {
        inserted(sorted_by_place(elements.drop_last()), elements.last())
    }
}

/// Each element stands before the next, or at the same place.
pub open spec fn is_sorted(elements: Seq<HighLightElement>) -> bool {
    forall|i: int, j: int|
        0 <= i < j < elements.len() ==> in_order(#[trigger] elements[i], #[trigger] elements[j])
}

/// Where `e` goes into a sorted sequence: behind `at` elements.
proof fn lemma_inserted_at(elements: Seq<HighLightElement>, e: HighLightElement, at: int)
    requires
        0 <= at <= elements.len(),
        forall|i: int| at <= i < elements.len() ==> !in_order(#[trigger] elements[i], e),
        at > 0 ==> in_order(elements[at - 1], e),
    ensures
        inserted(elements, e) == elements.insert(at, e),
    decreases elements.len() - at,
{
    if elements.len() == 0 {
        assert(elements.insert(at, e) =~= seq![e]);
    } else if at == elements.len() {
        assert(elements.insert(at, e) =~= elements.push(e));
    } else {
        let front = elements.drop_last();
        assert(!in_order(elements[elements.len() - 1], e));
        assert forall|i: int| at <= i < front.len() implies !in_order(#[trigger] front[i], e) by {
            assert(front[i] == elements[i]);
        }
        if at > 0 {
            assert(front[at - 1] == elements[at - 1]);
        }
        lemma_inserted_at(front, e, at);
        assert(front.insert(at, e).push(elements.last()) =~= elements.insert(at, e));
    }
}

/// Inserting keeps the order and adds the element, and nothing else.
pub proof fn lemma_inserted(elements: Seq<HighLightElement>, e: HighLightElement)
    requires
        is_sorted(elements),
    ensures
        is_sorted(inserted(elements, e)),
        inserted(elements, e).to_multiset() == elements.to_multiset().insert(e),
    decreases elements.len(),
{
    broadcast use vstd::seq_lib::group_to_multiset_ensures;

    if elements.len() == 0 {
        assert(elements =~= Seq::empty());
    } else if in_order(elements.last(), e) {
        let out = elements.push(e);
        assert forall|i: int, j: int| 0 <= i < j < out.len() implies in_order(
            #[trigger] out[i],
            #[trigger] out[j],
        ) by {
            if j == elements.len() && i < elements.len() - 1 {
                assert(in_order(elements[i], elements[elements.len() - 1]));
            }
        }
    } else {
        let front = elements.drop_last();
        let last = elements.last();
        assert forall|i: int, j: int| 0 <= i < j < front.len() implies in_order(
            #[trigger] front[i],
            #[trigger] front[j],
        ) by {
            assert(front[i] == elements[i] && front[j] == elements[j]);
        }
        lemma_inserted(front, e);
        let mid = inserted(front, e);
        let out = mid.push(last);
        assert(elements =~= front.push(last));
        assert(mid.to_multiset() =~= front.to_multiset().insert(e));
        assert(out.to_multiset() =~= elements.to_multiset().insert(e));
        assert forall|i: int, j: int| 0 <= i < j < out.len() implies in_order(
            #[trigger] out[i],
            #[trigger] out[j],
        ) by {
            if j == mid.len() {
                let x = mid[i];
                assert(mid.to_multiset().count(x) > 0);
                if x != e {
                    assert(front.to_multiset().count(x) > 0);
                    let k = choose|k: int| 0 <= k < front.len() && front[k] == x;
                    assert(in_order(elements[k], elements[elements.len() - 1]));
                }
            }
        }
    }
}

/// Sorting gives the same elements in the order of their places.
pub proof fn lemma_sorted_by_place(elements: Seq<HighLightElement>)
    ensures
        is_sorted(sorted_by_place(elements)),
        sorted_by_place(elements).to_multiset() == elements.to_multiset(),
    decreases elements.len(),
{
    broadcast use vstd::seq_lib::group_to_multiset_ensures;

    if elements.len() > 0 {
        lemma_sorted_by_place(elements.drop_last());
        lemma_inserted(sorted_by_place(elements.drop_last()), elements.last());
        assert(elements =~= elements.drop_last().push(elements.last()));
    } else {
        assert(elements =~= Seq::empty());
    }
}

/// The elements in the order of their places.
pub fn sort_by_place(elements: &Vec<HighLightElement>) -> (sorted: Vec<HighLightElement>)
    ensures
        sorted@ == sorted_by_place(elements@),
{
    let mut sorted: Vec<HighLightElement> = Vec::new();
    let mut i: usize = 0;
    proof {
        assert(elements@.take(0) =~= Seq::empty());
    }
    while i < elements.len()
        invariant
            i <= elements@.len(),
            sorted@ == sorted_by_place(elements@.take(i as int)),
            sorted@.len() == i,
        decreases elements.len() - i,
    {
        let e = elements[i];
        let mut at: usize = sorted.len();
        while at > 0 && !(sorted[at - 1].pos_start < e.pos_start || (sorted[at - 1].pos_start
            == e.pos_start && sorted[at - 1].pos_end <= e.pos_end))
            invariant
                at <= sorted@.len(),
                forall|k: int| at <= k < sorted@.len() ==> !in_order(#[trigger] sorted@[k], e),
            decreases at,
        {
            at -= 1;
        }
        proof {
            lemma_inserted_at(sorted@, e, at as int);
            assert(elements@.take(i + 1).drop_last() =~= elements@.take(i as int));
            assert(elements@.take(i + 1).last() == e);
        }
        sorted.insert(at, e);
        i += 1;
    }
    proof {
        assert(elements@.take(i as int) =~= elements@);
    }
    sorted
}

} // verus!

verus! {

/// How many patterns have a colour of their own.
pub const PALETTE_SIZE: usize = 4;

/// A run of bytes of the text that is shown in one colour: that of the
/// pattern at `token`, or the default colour where there is none.
#[derive(Debug, Clone, Copy, PartialEq, Eq, Structural)]
pub struct Section {
    pub start: usize,
    pub end: usize,
    pub token: Option<usize>,
}

/// The sections of a text of `text_len` bytes, from `previous_end` on, with
/// the matches `elements` in this order. A match that does not start behind
/// the end of the match before it is passed over; so is one at the very
/// start of the text. Before each match that counts stands a section in the
/// default colour, empty or not; the match is a section of its own if its
/// pattern is one of the first `PALETTE_SIZE`, and is left out otherwise.
/// The rest of the text is a last section in the default colour.
pub open spec fn laid_out(elements: Seq<HighLightElement>, previous_end: usize, text_len: usize)
    -> Seq<Section>
    decreases elements.len(),
{
    if elements.len() == 0 {
        seq![Section { start: previous_end, end: text_len, token: None }]
    } else {
        let m = elements[0];
        if previous_end >= m.pos_start {
            laid_out(elements.drop_first(), previous_end, text_len)
        } else {
            let gap = seq![Section { start: previous_end, end: m.pos_start, token: None }];
            let own = if m.token_idx < PALETTE_SIZE {
                seq![Section { start: m.pos_start, end: m.pos_end, token: Some(m.token_idx) }]
            } else {
                Seq::empty()
            };
            gap + own + laid_out(elements.drop_first(), m.pos_end, text_len)
        }
    }
}

/// The sections of a text of `text_len` bytes in which `elements` were
/// found.
pub fn layout(elements: &Vec<HighLightElement>, text_len: usize) -> (sections: Vec<Section>)
    ensures
        sections@ == laid_out(sorted_by_place(elements@), 0, text_len),
{
    let sorted = sort_by_place(elements);
    let mut sections: Vec<Section> = Vec::new();
    let mut previous_end: usize = 0;
    let mut i: usize = 0;
    proof {
        assert(sorted@.skip(0) =~= sorted@);
        assert(sections@ + laid_out(sorted@, 0, text_len) =~= laid_out(sorted@, 0, text_len));
    }
    while i < sorted.len()
        invariant
            i <= sorted@.len(),
            laid_out(sorted@, 0, text_len) == sections@ + laid_out(
                sorted@.skip(i as int),
                previous_end,
                text_len,
            ),
        decreases sorted.len() - i,
    {
        let m = sorted[i];
        let ghost rest = sorted@.skip(i as int);
        let ghost before = sections@;
        proof {
            assert(rest[0] == m);
            assert(rest.drop_first() =~= sorted@.skip(i + 1));
        }
        if previous_end < m.pos_start {
            sections.push(Section { start: previous_end, end: m.pos_start, token: None });
            if m.token_idx < PALETTE_SIZE {
                sections.push(
                    Section { start: m.pos_start, end: m.pos_end, token: Some(m.token_idx) },
                );
            }
            proof {
                let gap = seq![Section { start: previous_end, end: m.pos_start, token: None }];
                let own = if m.token_idx < PALETTE_SIZE {
                    seq![
                        Section { start: m.pos_start, end: m.pos_end, token: Some(m.token_idx) },
                    ]
                } else {
                    Seq::empty()
                };
                assert(sections@ =~= before + gap + own);
                assert(before + (gap + own + laid_out(rest.drop_first(), m.pos_end, text_len))
                    =~= (before + gap + own) + laid_out(rest.drop_first(), m.pos_end, text_len));
            }
            previous_end = m.pos_end;
        }
        i += 1;
    }
    proof {
        assert(sorted@.skip(i as int) =~= Seq::<HighLightElement>::empty());
    }
    let ghost before = sections@;
    sections.push(Section { start: previous_end, end: text_len, token: None });
    proof {
        assert(sections@ =~= before + seq![
            Section { start: previous_end, end: text_len, token: None },
        ]);
    }
    sections
}

/// Those of `tokens` that are not empty.
fn drop_empty(tokens: &Vec<String>) -> (patterns: Vec<String>)
    ensures
        text_views(patterns@) == patterns_of(text_views(tokens@)),
{
    let mut patterns: Vec<String> = Vec::new();
    let mut i: usize = 0;
    proof {
        assert(text_views(tokens@).take(0) =~= Seq::empty());
        assert(text_views(patterns@) =~= Seq::empty());
    }
    while i < tokens.len()
        invariant
            i <= tokens@.len(),
            text_views(patterns@) == patterns_of(text_views(tokens@).take(i as int)),
        decreases tokens.len() - i,
    {
        proof {
            let all = text_views(tokens@);
            assert(all.take(i + 1).drop_last() =~= all.take(i as int));
            assert(all.take(i + 1).last() == tokens@[i as int]@);
        }
        if !tokens[i].as_str().is_empty() {
            let ghost before = text_views(patterns@);
            let token = tokens[i].clone();
            patterns.push(token);
            proof {
                assert(text_views(patterns@) =~= before.push(token@));
            }
        }
        i += 1;
    }
    proof {
        assert(text_views(tokens@).take(i as int) =~= text_views(tokens@));
    }
    patterns
}

/// All matches of `patterns` in `text`.
pub fn find_elements(text: &str, patterns: &Vec<String>) -> (elements: Vec<HighLightElement>)
    ensures
        elements@ == found(text_views(patterns@), text@),
{
    let mut elements: Vec<HighLightElement> = Vec::new();
    let which = match set_matches(patterns, text) {
        Some(which) => which,
        None => {
            return elements;
        },
    };
    let ghost all = text_views(patterns@);
    let mut i: usize = 0;
    proof {
        assert(which@.take(0) =~= Seq::empty());
    }
    while i < which.len()
        invariant
            i <= which@.len(),
            all == text_views(patterns@),
            elements@ == found_by(all, text@, which@.take(i as int)),
        decreases which.len() - i,
    {
        let idx = which[i];
        proof {
            assert(which@.take(i + 1).drop_last() =~= which@.take(i as int));
            assert(which@.take(i + 1).last() == idx);
        }
        let ghost before = elements@;
        if idx < patterns.len() {
            proof {
                assert(all[idx as int] == patterns@[idx as int]@);
            }
            match all_matches(patterns[idx].as_str(), text) {
                Some(places) => {
                    let mut k: usize = 0;
                    proof {
                        assert(elements@ =~= before + elements_of(places@.take(0), idx));
                    }
                    while k < places.len()
                        invariant
                            k <= places@.len(),
                            elements@ == before + elements_of(places@.take(k as int), idx),
                        decreases places.len() - k,
                    {
                        let place = places[k];
                        elements.push(HighLightElement::new(place.0, place.1, idx));
                        proof {
                            assert(elements_of(places@.take(k + 1), idx) =~= elements_of(
                                places@.take(k as int),
                                idx,
                            ).push(
                                HighLightElement {
                                    pos_start: place.0,
                                    pos_end: place.1,
                                    token_idx: idx,
                                },
                            ));
                            assert(elements@ =~= before + elements_of(places@.take(k + 1), idx));
                        }
                        k += 1;
                    }
                    proof {
                        assert(places@.take(k as int) =~= places@);
                    }
                },
                None => {
                    proof {
                        assert(elements@ =~= before + Seq::<HighLightElement>::empty());
                    }
                },
            }
        } else {
            proof {
                assert(elements@ =~= before + Seq::<HighLightElement>::empty());
            }
        }
        i += 1;
    }
    proof {
        assert(which@.take(i as int) =~= which@);
    }
    elements
}

/// The sections in which `text` is shown when the patterns among `tokens`
/// are highlighted in it. Empty tokens are no patterns.
pub fn highlight_impl(text: &str, tokens: Vec<String>) -> (sections: Vec<Section>)
    ensures
        sections@ == laid_out(
            sorted_by_place(found(patterns_of(text_views(tokens@)), text@)),
            0,
            text.len(),
        ),
{
    let patterns = drop_empty(&tokens);
    let elements = find_elements(text, &patterns);
    layout(&elements, text.len())
}

} // verus!
