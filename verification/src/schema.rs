use vstd::prelude::*;
use crate::number::{is_number, number_text, Number};
use crate::text::{chars_of, split_tokens, string_of, tokens, views_of};

verus! {

/// What each of `numbers` writes.
pub open spec fn number_views(numbers: Seq<Number>) -> Seq<Seq<char>> {
    numbers.map_values(|n: Number| n@)
}

/// Those of `tokens` that are written as numbers, in their order.
pub open spec fn numbers_among(tokens: Seq<Seq<char>>) -> Seq<Seq<char>>
    decreases tokens.len(),
{
    if tokens.len() == 0 {
        Seq::empty()
    } else if is_number(tokens.last()) {
        numbers_among(tokens.drop_last()).push(tokens.last())
    } else {
        numbers_among(tokens.drop_last())
    }
}

/// What a record holds: the identifier of its stream, empty where it names
/// none, and its values.
pub struct RecordView {
    pub id: Seq<char>,
    pub values: Seq<Seq<char>>,
}

/// A record names a stream only if it has values for it.
pub open spec fn record_wf(record: RecordView) -> bool {
    record.id.len() > 0 ==> record.values.len() > 0
}

/// The record that a payload with these tokens carries. Where the first
/// token is a number, or empty, or no number follows it, the record names no
/// stream and its values are all the numbers among the tokens. Otherwise the
/// first token names the stream, and the values are the numbers among the
/// tokens after it.
pub open spec fn record_of_tokens(tokens: Seq<Seq<char>>) -> RecordView {
    if tokens.len() > 0 && tokens[0].len() > 0 && !is_number(tokens[0]) && numbers_among(
        tokens.drop_first(),
    ).len() > 0 {
        RecordView { id: tokens[0], values: numbers_among(tokens.drop_first()) }
    } else {
        RecordView { id: Seq::empty(), values: numbers_among(tokens) }
    }
}

/// The record that `payload` carries.
pub open spec fn record_of(payload: Seq<char>) -> RecordView {
    record_of_tokens(tokens(payload))
}

/// The values of one line of a device, with the stream that they belong to.
#[derive(Debug)]
pub struct Record {
    id: String,
    values: Vec<Number>,
}

impl View for Record {
    type V = RecordView;

    closed spec fn view(&self) -> RecordView {
        RecordView { id: self.id@, values: number_views(self.values@) }
    }
}

pub proof fn lemma_numbers_among_skip_first(tokens: Seq<Seq<char>>)
    requires
        tokens.len() > 0,
        !is_number(tokens[0]),
    ensures
        numbers_among(tokens) == numbers_among(tokens.drop_first()),
    decreases tokens.len(),
{
    if tokens.len() == 1 {
        assert(tokens.drop_last() =~= tokens.drop_first());
    } else {
        lemma_numbers_among_skip_first(tokens.drop_last());
        assert(tokens.drop_last().drop_first() =~= tokens.drop_first().drop_last());
    }
}

/// The numbers among `tokens[from..]`.
fn collect_numbers(tokens: &Vec<Vec<char>>, from: usize) -> (values: Vec<Number>)
    requires
        from <= tokens.len(),
    ensures
        number_views(values@) == numbers_among(views_of(tokens@).skip(from as int)),
{
    let mut values: Vec<Number> = Vec::new();
    let mut i: usize = from;
    proof {
        assert(views_of(tokens@).skip(from as int).take(0) =~= Seq::empty());
        assert(number_views(values@) =~= Seq::empty());
    }
    while i < tokens.len()
        invariant
            from <= i <= tokens.len(),
            number_views(values@) == numbers_among(
                views_of(tokens@).skip(from as int).take(i - from),
            ),
        decreases tokens.len() - i,
    {
        let ghost all = views_of(tokens@).skip(from as int);
        proof {
            assert(all.take(i + 1 - from).drop_last() =~= all.take(i - from));
            assert(all.take(i + 1 - from).last() == tokens@[i as int]@);
        }
        let text = string_of(&tokens[i]);
        match Number::parse(text.as_str()) {
            Some(number) => {
                let ghost before = number_views(values@);
                values.push(number);
                proof {
                    assert(number_views(values@) =~= before.push(number@));
                }
            },
            None => {},
        }
        i += 1;
    }
    proof {
        let all = views_of(tokens@).skip(from as int);
        assert(all.take(i - from) =~= all);
    }
    values
}

impl Record {
    #[verifier::type_invariant]
    spec fn well_formed(self) -> bool {
        self.id@.len() > 0 ==> self.values@.len() > 0
    }

    /// A record that names no stream.
    pub fn flat(values: Vec<Number>) -> (record: Record)
        ensures
            record@ == (RecordView { id: Seq::empty(), values: number_views(values@) }),
    {
        Record { id: String::new(), values }
    }

    /// A record for the stream `id`. Without values it names no stream.
    pub fn tagged(id: String, values: Vec<Number>) -> (record: Record)
        ensures
            record@ == (RecordView {
                id: if values@.len() > 0 {
                    id@
                } else {
                    Seq::empty()
                },
                values: number_views(values@),
            }),
    {
        if values.len() > 0 {
            Record { id, values }
        } else {
            Record { id: String::new(), values }
        }
    }

    /// The record that `payload` carries.
    pub fn parse(payload: &str) -> (record: Record)
        ensures
            record@ == record_of(payload@),
    {
        let chars = chars_of(payload);
        let tokens = split_tokens(&chars);
        let ghost token_views = views_of(tokens@);
        if tokens.len() > 0 && tokens[0].len() > 0 && !number_text(&tokens[0]) {
            proof {
                assert(token_views.skip(1) =~= token_views.drop_first());
                assert(token_views.skip(0) =~= token_views);
                lemma_numbers_among_skip_first(token_views);
            }
            let values = collect_numbers(&tokens, 1);
            if values.len() > 0 {
                Record { id: string_of(&tokens[0]), values }
            } else {
                Record { id: String::new(), values }
            }
        } else {
            proof {
                assert(token_views.skip(0) =~= token_views);
            }
            Record { id: String::new(), values: collect_numbers(&tokens, 0) }
        }
    }

    /// The identifier of the stream, empty where the record names none.
    pub fn id(&self) -> (id: &str)
        ensures
            id@ == self@.id,
            record_wf(self@),
    {
        proof {
            use_type_invariant(self);
        }
        self.id.as_str()
    }

    pub fn values(&self) -> (values: &Vec<Number>)
        ensures
            number_views(values@) == self@.values,
            record_wf(self@),
    {
        proof {
            use_type_invariant(self);
        }
        &self.values
    }

    /// The record taken apart.
    pub fn into_parts(self) -> (parts: (String, Vec<Number>))
        ensures
            parts.0@ == self@.id,
            number_views(parts.1@) == self@.values,
            record_wf(self@),
    {
        proof {
            use_type_invariant(&self);
        }
        (self.id, self.values)
    }
}

} // verus!
