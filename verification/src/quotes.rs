//! The barman's quotes: mean, neutral and pleasant lines, one of which is
//! picked at random to close a reply.
use vstd::prelude::*;
use rand::Rng;
use crate::text::string_views;

verus! {

/// An index picked by rand's thread-local generator
/// (`rand::thread_rng().gen_range(0..len)`). Claimed: the index is below
/// `len`; which index comes back is chance and is not stated. rand panics
/// on an empty range, so `len` must be positive.
#[verifier::external_body]
fn random_index(len: usize) -> (res: usize)
    requires
        len > 0,
    ensures
        res < len,
{
    rand::thread_rng().gen_range(0..len)
}

/// The three lists of quotes, as text.
pub struct QuotesView {
    pub mean: Seq<Seq<char>>,
    pub neutral: Seq<Seq<char>>,
    pub pleasant: Seq<Seq<char>>,
}

/// The barman's quotes, by mood. Each list's length is kept beside it.
#[derive(Debug)]
pub struct Quotes {
    mean_quotes: Vec<String>,
    neutral_quotes: Vec<String>,
    pleasant_quotes: Vec<String>,
    mean_quotes_len: usize,
    neutral_quotes_len: usize,
    pleasant_quotes_len: usize,
}

impl View for Quotes {
    type V = QuotesView;

    closed spec fn view(&self) -> QuotesView {
        QuotesView {
            mean: string_views(self.mean_quotes@),
            neutral: string_views(self.neutral_quotes@),
            pleasant: string_views(self.pleasant_quotes@),
        }
    }
}

/// The quote at `index` of `quotes`.
fn pick(quotes: &Vec<String>, index: usize) -> (res: &str)
    requires
        index < quotes@.len(),
    ensures
        res@ == quotes@[index as int]@,
        string_views(quotes@).contains(res@),
{
    let q = quotes[index].as_str();
    assert(string_views(quotes@)[index as int] == q@);
    q
}

impl Quotes {
    /// Each stored length is the length of its list.
    #[verifier::type_invariant]
    spec fn lengths_match(self) -> bool {
        &&& self.mean_quotes_len == self.mean_quotes@.len()
        &&& self.neutral_quotes_len == self.neutral_quotes@.len()
        &&& self.pleasant_quotes_len == self.pleasant_quotes@.len()
    }

    /// Keeps the three lists of quotes.
    pub fn new(mean_quotes: Vec<String>, neutral_quotes: Vec<String>, pleasant_quotes: Vec<String>) -> (res: Quotes)
        ensures
            res@ == (QuotesView {
                mean: string_views(mean_quotes@),
                neutral: string_views(neutral_quotes@),
                pleasant: string_views(pleasant_quotes@),
            }),
    {
        Quotes {
            mean_quotes_len: mean_quotes.len(),
            neutral_quotes_len: neutral_quotes.len(),
            pleasant_quotes_len: pleasant_quotes.len(),
            mean_quotes,
            neutral_quotes,
            pleasant_quotes,
        }
    }

    /// How many pleasant quotes there are.
    pub fn pleasant_quotes_len(&self) -> (res: usize)
        ensures
            res == self@.pleasant.len(),
    {
        proof {
            use_type_invariant(self);
        }
        self.pleasant_quotes_len
    }

    /// How many neutral quotes there are.
    pub fn neutral_quotes_len(&self) -> (res: usize)
        ensures
            res == self@.neutral.len(),
    {
        proof {
            use_type_invariant(self);
        }
        self.neutral_quotes_len
    }

    /// How many mean quotes there are.
    pub fn mean_quotes_len(&self) -> (res: usize)
        ensures
            res == self@.mean.len(),
    {
        proof {
            use_type_invariant(self);
        }
        self.mean_quotes_len
    }

    /// One of the pleasant quotes, picked at random.
    pub fn random_pleasant_quote(&self) -> (res: &str)
        requires
            self@.pleasant.len() > 0,
        ensures
            self@.pleasant.contains(res@),
    {
        proof {
            use_type_invariant(self);
        }
        let i = random_index(self.pleasant_quotes_len);
        pick(&self.pleasant_quotes, i)
    }

    /// One of the neutral quotes, picked at random.
    pub fn random_neutral_quote(&self) -> (res: &str)
        requires
            self@.neutral.len() > 0,
        ensures
            self@.neutral.contains(res@),
    {
        proof {
            use_type_invariant(self);
        }
        let i = random_index(self.neutral_quotes_len);
        pick(&self.neutral_quotes, i)
    }

    /// One of the mean quotes, picked at random.
    pub fn random_mean_quote(&self) -> (res: &str)
        requires
            self@.mean.len() > 0,
        ensures
            self@.mean.contains(res@),
    {
        proof {
            use_type_invariant(self);
        }
        let i = random_index(self.mean_quotes_len);
        pick(&self.mean_quotes, i)
    }
}

} // verus!
