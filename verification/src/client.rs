//! The sample client: its settings, and its count of what it receives.

use vstd::prelude::*;
use vstd::string::*;

use crate::text::{chars_of, lemma_number_fits, parse_unsigned, trim, trimmed, unsigned};

verus! {

/// The settings as texts, each under the name of its variable.
pub struct ClientVars {
    /// `MDS_CLIENT_TARGET`.
    pub target: Option<String>,
    /// `MDS_CLIENT_FIGI`.
    pub figi: Option<String>,
    /// `MDS_CLIENT_FIGIS`.
    pub figis: Option<String>,
    /// `MDS_CLIENT_SECS`.
    pub secs: Option<String>,
    /// `MDS_CLIENT_VERBOSE`.
    pub verbose: Option<String>,
}

/// The settings of the client.
#[derive(Debug, PartialEq, Eq)]
pub struct ClientConfig {
    /// The server.
    pub target: String,
    /// The instruments to ask for and to subscribe to.
    pub figis: Vec<String>,
    /// For how many seconds to receive updates.
    pub secs: u64,
    /// Whether to show books in full.
    pub verbose: bool,
}

/// The parts of `text` between the separators.
pub open spec fn parts(text: Seq<char>, separator: char) -> Seq<Seq<char>>
    decreases text.len(),
{
    if text.len() == 0 {
        seq![Seq::empty()]
    } else {
        let front = parts(text.drop_last(), separator);
        if text.last() == separator {
            front.push(Seq::empty())
        } else {
            front.drop_last().push(front.last().push(text.last()))
        }
    }
}

/// The entries of a list that is separated by commas: trimmed, without the empty ones.
pub open spec fn list_entries(text: Seq<char>) -> Seq<Seq<char>> {
    parts(text, ',').map_values(|part: Seq<char>| trimmed(part)).filter(|entry: Seq<char>| entry.len() > 0)
}

/// The text of a variable, or the default when it is not set.
pub open spec fn text_or(var: Option<String>, default: Seq<char>) -> Seq<char> {
    match var {
        Some(text) => text@,
        None => default,
    }
}

impl ClientVars {
    /// Whether `config` is what the variables give. A duration that is not a number is
    /// the default; any text at all asks for full books.
    pub open spec fn give(self, config: ClientConfig) -> bool {
        let figi = text_or(self.figi, "BBG000000001"@);
        &&& config.target@ == text_or(self.target, "http://127.0.0.1:50051"@)
        &&& config.figis@.map_values(|entry: String| entry@) == list_entries(text_or(self.figis, figi))
        &&& config.secs == match self.secs {
            Some(text) => match unsigned(text@, u64::MAX as nat) {
                Ok(secs) => secs as u64,
                Err(_) => 3,
            },
            None => 3,
        }
        &&& config.verbose <==> self.verbose is Some
    }
}

/// The entries of `parts`.
spec fn entries_of(parts: Seq<Seq<char>>) -> Seq<Seq<char>> {
    parts.map_values(|part: Seq<char>| trimmed(part)).filter(|entry: Seq<char>| entry.len() > 0)
}

/// The texts of `entries`.
spec fn texts_of(entries: Seq<String>) -> Seq<Seq<char>> {
    entries.map_values(|entry: String| entry@)
}

/// Adds one more part of a list: its entry, unless that is empty.
fn add_part(entries: &mut Vec<String>, part: &str, done: Ghost<Seq<Seq<char>>>)
    requires
        texts_of(old(entries)@) == entries_of(done@),
    ensures
        texts_of(final(entries)@) == entries_of(done@.push(part@)),
{
    let entry = trim(part);
    proof {
        reveal(Seq::filter);
        let trimmer = |part: Seq<char>| trimmed(part);
        let more = done@.push(part@).map_values(trimmer);
        assert(more.drop_last() =~= done@.map_values(trimmer));
        assert(more.last() == entry@);
    }
    if !entry.is_empty() {
        entries.push(entry.to_owned());
        assert(texts_of(entries@) =~= texts_of(old(entries)@).push(entry@));
    }
}

/// The entries of a list that is separated by commas: trimmed, without the empty ones.
pub fn parse_list(text: &str) -> (entries: Vec<String>)
    ensures
        entries@.map_values(|entry: String| entry@) == list_entries(text@),
{
    let chars = chars_of(text);
    let mut entries: Vec<String> = Vec::new();
    let ghost mut done: Seq<Seq<char>> = Seq::empty();
    let mut start: usize = 0;
    let mut i: usize = 0;
    proof {
        reveal(Seq::filter);
        assert(text@.take(0) =~= Seq::<char>::empty());
        assert(done.push(text@.subrange(0, 0)) =~= parts(text@.take(0), ','));
        assert(texts_of(entries@) =~= entries_of(done));
    }
    while i < chars.len()
        invariant
            chars@ == text@,
            start <= i <= chars@.len(),
            parts(text@.take(i as int), ',') == done.push(text@.subrange(start as int, i as int)),
            texts_of(entries@) == entries_of(done),
        decreases chars@.len() - i,
    {
        proof {
            assert(text@.take(i + 1).drop_last() =~= text@.take(i as int));
            assert(text@.take(i + 1).last() == text@[i as int]);
        }
        if chars[i] == ',' {
            let part = text.substring_char(start, i);
            add_part(&mut entries, part, Ghost(done));
            proof {
                done = done.push(part@);
                assert(text@.subrange(i + 1, i + 1) =~= Seq::<char>::empty());
            }
            start = i + 1;
        } else {
            proof {
                let part = text@.subrange(start as int, i as int);
                assert(text@.subrange(start as int, i + 1) =~= part.push(text@[i as int]));
                assert(done.push(part).drop_last() =~= done);
            }
        }
        i = i + 1;
    }
    add_part(&mut entries, text.substring_char(start, i), Ghost(done));
    assert(text@.take(i as int) =~= text@);
    entries
}

fn set_or(var: &Option<String>, default: &str) -> (text: String)
    ensures
        text@ == text_or(*var, default@),
{
    match var {
        Some(text) => text.clone(),
        None => default.to_owned(),
    }
}

impl ClientConfig {
    /// Reads the settings out of `vars`; what is not set has its default.
    pub fn from_vars(vars: &ClientVars) -> (config: ClientConfig)
        ensures
            vars.give(config),
    {
        let figi = set_or(&vars.figi, "BBG000000001");
        let list = set_or(&vars.figis, figi.as_str());
        let secs: u64 = match &vars.secs {
            Some(text) => match parse_unsigned(text.as_str(), u64::MAX) {
                Ok(secs) => secs,
                Err(_) => 3,
            },
            None => 3,
        };
        let verbose = match &vars.verbose {
            Some(_) => true,
            None => false,
        };
        ClientConfig {
            target: set_or(&vars.target, "http://127.0.0.1:50051"),
            figis: parse_list(list.as_str()),
            secs,
            verbose,
        }
    }
}

/// What the client counts.
#[derive(Clone, Copy, Debug, PartialEq, Eq, Structural)]
pub struct Tally {
    /// Updates received.
    pub received: u64,
    /// Books lost, as of the last update.
    pub dropped: u64,
}

/// What is worth showing of an update.
#[derive(Clone, Copy, Debug, PartialEq, Eq, Structural)]
pub struct Notice {
    /// It is the first.
    pub first: bool,
    /// A line on it is due: one for every fifty.
    pub summary: bool,
}

impl Tally {
    /// Nothing received yet.
    pub fn new() -> (tally: Tally)
        ensures
            tally == (Tally { received: 0, dropped: 0 }),
    {
        Tally { received: 0, dropped: 0 }
    }

    /// Counts an update that came with the total `dropped_total`. The total is a running
    /// one, so the last one stands.
    pub fn on_update(&mut self, dropped_total: u64) -> (notice: Notice)
        requires
            old(self).received < u64::MAX,
        ensures
            *final(self) == (Tally { received: (old(self).received + 1) as u64, dropped: dropped_total }),
            notice.first <==> final(self).received == 1,
            notice.summary <==> final(self).received % 50 == 0,
    {
        self.received = self.received + 1;
        self.dropped = dropped_total;
        Notice { first: self.received == 1, summary: self.received % 50 == 0 }
    }
}

/// A text made of parts, with a separator between each two of them.
pub open spec fn joined(parts: Seq<Seq<char>>, separator: char) -> Seq<char>
    decreases parts.len(),
{
    if parts.len() == 0 {
        Seq::empty()
    } else if parts.len() == 1 {
        parts[0]
    } else {
        joined(parts.drop_last(), separator).push(separator) + parts.last()
    }
}

/// Splitting a text loses nothing: joined again by the separator, the parts are the text, and
/// no part holds a separator.
pub proof fn law_parts_make_the_text(text: Seq<char>, separator: char)
    ensures
        parts(text, separator).len() > 0,
        joined(parts(text, separator), separator) == text,
        forall|i: int, k: int|
            0 <= i < parts(text, separator).len() && 0 <= k < parts(text, separator)[i].len()
                ==> #[trigger] parts(text, separator)[i][k] != separator,
    decreases text.len(),
{
    let all = parts(text, separator);
    if text.len() > 0 {
        law_parts_make_the_text(text.drop_last(), separator);
        let front = parts(text.drop_last(), separator);
        if text.last() == separator {
            assert(all.drop_last() =~= front);
            assert(joined(all, separator) =~= text);
        } else {
            assert(all.drop_last() =~= front.drop_last());
            assert(all.last() == front.last().push(text.last()));
            if front.len() == 1 {
                assert(joined(all, separator) =~= text);
            } else {
                let start = joined(front.drop_last(), separator).push(separator);
                assert(joined(front, separator) == start + front.last());
                assert(joined(all, separator) =~= (start + front.last()).push(text.last()));
            }
            assert forall|i: int, k: int| 0 <= i < all.len() && 0 <= k < all[i].len() implies #[trigger] all[i][k]
                != separator by {
                if i < all.len() - 1 {
                    assert(all[i] == front[i]);
                    assert(front[i][k] != separator);
                } else if k < front.last().len() {
                    assert(all[i][k] == front[front.len() - 1][k]);
                }
            }
        }
        assert(text =~= text.drop_last().push(text.last()));
    } else {
        assert(all =~= seq![Seq::<char>::empty()]);
        assert(joined(all, separator) =~= text);
    }
}

/// The entries of a list are the parts between its commas, without the white space around
/// them and without those that are then empty, in their order: every such part is there as
/// often as it occurs, and nothing else.
pub proof fn law_list_has_every_entry(text: &str, entries: Vec<String>)
    requires
        call_ensures(parse_list, (text,), entries),
    ensures
        ({
            let all = parts(text@, ',');
            let trimmed_parts = Seq::new(all.len(), |i: int| trimmed(all[i]));
            texts(entries@) == without_empty(trimmed_parts)
        }),
        forall|i: int| 0 <= i < entries@.len() ==> (#[trigger] entries@[i])@.len() > 0,
{
    let all = parts(text@, ',');
    let trimmed_parts = Seq::new(all.len(), |i: int| trimmed(all[i]));
    let mapped = all.map_values(|part: Seq<char>| trimmed(part));
    assert(mapped =~= trimmed_parts);
    lemma_without_empty(trimmed_parts);
    assert(texts(entries@) =~= entries@.map_values(|entry: String| entry@));
    assert forall|i: int| 0 <= i < entries@.len() implies (#[trigger] entries@[i])@.len() > 0 by {
        assert(texts(entries@)[i] == entries@[i]@);
        lemma_none_empty(trimmed_parts, i);
    }
}

/// The texts of `entries`, in order.
pub open spec fn texts(entries: Seq<String>) -> Seq<Seq<char>> {
    Seq::new(entries.len(), |i: int| entries[i]@)
}

/// Those of `texts` that are not empty, in order.
pub open spec fn without_empty(texts: Seq<Seq<char>>) -> Seq<Seq<char>>
    decreases texts.len(),
{
    if texts.len() == 0 {
        Seq::empty()
    } else if texts.last().len() == 0 {
        without_empty(texts.drop_last())
    } else {
        without_empty(texts.drop_last()).push(texts.last())
    }
}

proof fn lemma_without_empty(texts: Seq<Seq<char>>)
    ensures
        texts.filter(|entry: Seq<char>| entry.len() > 0) == without_empty(texts),
    decreases texts.len(),
{
    reveal(Seq::filter);
    if texts.len() > 0 {
        lemma_without_empty(texts.drop_last());
    }
}

proof fn lemma_none_empty(texts: Seq<Seq<char>>, i: int)
    requires
        0 <= i < without_empty(texts).len(),
    ensures
        without_empty(texts)[i].len() > 0,
    decreases texts.len(),
{
    if texts.len() > 0 && i < without_empty(texts.drop_last()).len() {
        lemma_none_empty(texts.drop_last(), i);
    }
}

/// Each setting of the client is its own variable, or its default when that is not set; the
/// list of instruments falls back on the single one, a duration that is no number on three
/// seconds.
pub proof fn law_client_settings(
    vars: ClientVars,
    config: ClientConfig,
    list: &str,
    entries: Vec<String>,
)
    requires
        call_ensures(ClientConfig::from_vars, (&vars,), config),
        list@ == if vars.figis is Some {
            vars.figis->Some_0@
        } else if vars.figi is Some {
            vars.figi->Some_0@
        } else {
            "BBG000000001"@
        },
        call_ensures(parse_list, (list,), entries),
    ensures
        vars.target is Some ==> config.target@ == vars.target->Some_0@,
        vars.target is None ==> config.target@ == "http://127.0.0.1:50051"@,
        texts(config.figis@) == texts(entries@),
        vars.secs is None ==> config.secs == 3,
        vars.secs is Some && unsigned(vars.secs->Some_0@, u64::MAX as nat) is Err ==> config.secs == 3,
        vars.secs is Some && unsigned(vars.secs->Some_0@, u64::MAX as nat) is Ok ==> config.secs == unsigned(
            vars.secs->Some_0@,
            u64::MAX as nat,
        )->Ok_0,
        config.verbose <==> vars.verbose is Some,
{
    assert(texts(config.figis@) =~= config.figis@.map_values(|entry: String| entry@));
    assert(texts(entries@) =~= entries@.map_values(|entry: String| entry@));
    if vars.secs is Some {
        lemma_number_fits(vars.secs->Some_0@, u64::MAX as nat);
        lemma_number_fits(vars.secs->Some_0@.drop_first(), u64::MAX as nat);
    }
}

/// Every update counts once, and the total that came last stands; the first one and every
/// fiftieth are worth a line.
pub proof fn law_updates_are_tallied(tally: &mut Tally, dropped_total: u64, notice: Notice)
    requires
        old(tally).received < u64::MAX,
        call_ensures(Tally::on_update, (tally, dropped_total), notice),
    ensures
        final(tally).received == old(tally).received + 1,
        final(tally).dropped == dropped_total,
        notice.first <==> old(tally).received == 0,
        notice.summary <==> (old(tally).received + 1) % 50 == 0,
{
}

/// Nothing is tallied at first.
pub proof fn law_tally_starts_at_nothing(tally: Tally)
    requires
        call_ensures(Tally::new, (), tally),
    ensures
        tally.received == 0,
        tally.dropped == 0,
{
}

} // verus!
