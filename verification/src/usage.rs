//! Token accounting: the counts of one response, and the totals per provider
//! and model.
use vstd::prelude::*;
use vstd::string::*;

use crate::names;
use crate::names::NameMap;
use crate::text;

pub use crate::sniffer::Sniffer;

verus! {

/// The token counts of one response, or a sum of such counts.
#[derive(Debug, Clone, Copy)]
pub struct Tokens {
    pub input: u64,
    pub output: u64,
    pub cache_create: u64,
    pub cache_read: u64,
}

/// The counts of nothing.
pub open spec fn no_tokens() -> Tokens {
    Tokens { input: 0, output: 0, cache_create: 0, cache_read: 0 }
}

impl Default for Tokens {
    fn default() -> (r: Tokens)
        ensures
            r == no_tokens(),
    {
        Tokens { input: 0, output: 0, cache_create: 0, cache_read: 0 }
    }
}

impl Tokens {
    /// Whether each count of `other` can be added without leaving a `u64`.
    pub open spec fn has_room_for(self, other: Tokens) -> bool {
        &&& self.input + other.input <= u64::MAX
        &&& self.output + other.output <= u64::MAX
        &&& self.cache_create + other.cache_create <= u64::MAX
        &&& self.cache_read + other.cache_read <= u64::MAX
    }

    /// The sums of the counts.
    pub open spec fn plus(self, other: Tokens) -> Tokens {
        Tokens {
            input: (self.input + other.input) as u64,
            output: (self.output + other.output) as u64,
            cache_create: (self.cache_create + other.cache_create) as u64,
            cache_read: (self.cache_read + other.cache_read) as u64,
        }
    }

    /// Adds the counts of `other`.
    pub fn add(&mut self, other: &Tokens)
        requires
            old(self).has_room_for(*other),
        ensures
            *final(self) == old(self).plus(*other),
    {
        self.input = self.input + other.input;
        self.output = self.output + other.output;
        self.cache_create = self.cache_create + other.cache_create;
        self.cache_read = self.cache_read + other.cache_read;
    }

    /// Whether `other` can be added.
    pub fn can_add(&self, other: &Tokens) -> (r: bool)
        ensures
            r == self.has_room_for(*other),
    {
        self.input <= u64::MAX - other.input && self.output <= u64::MAX - other.output
            && self.cache_create <= u64::MAX - other.cache_create && self.cache_read <= u64::MAX
            - other.cache_read
    }
}

/// The name under which the usage of a provider's model is totalled.
pub open spec fn usage_key(provider: Seq<char>, model: Seq<char>) -> Seq<char> {
    provider + "/"@ + model
}

/// The sum of one count over a listing.
pub open spec fn count_sum(
    listing: Seq<(Seq<char>, Tokens)>,
    count: spec_fn(Tokens) -> int,
) -> int
    decreases listing.len(),
{
    if listing.len() == 0 {
        0
    } else {
        count_sum(listing.drop_last(), count) + count(listing.last().1)
    }
}

/// A row of the table of totals: a name and four numbers in columns.
pub open spec fn row(
    name: Seq<char>,
    input: Seq<char>,
    output: Seq<char>,
    cache_create: Seq<char>,
    cache_read: Seq<char>,
) -> Seq<char> {
    "  "@ + text::pad_right(name, 32) + " "@ + text::pad_left(input, 10) + " "@ + text::pad_left(
        output,
        10,
    ) + " "@ + text::pad_left(cache_create, 14) + " "@ + text::pad_left(cache_read, 12)
}

/// The row of the table that shows the counts `t`.
pub open spec fn tokens_row(name: Seq<char>, t: Tokens) -> Seq<char> {
    row(
        name,
        text::decimal(t.input as nat),
        text::decimal(t.output as nat),
        text::decimal(t.cache_create as nat),
        text::decimal(t.cache_read as nat),
    )
}

/// The counts `t` as a log line shows them.
pub open spec fn counts_text(t: Tokens) -> Seq<char> {
    "in="@ + text::decimal(t.input as nat) + " out="@ + text::decimal(t.output as nat)
        + " cache_create="@ + text::decimal(t.cache_create as nat) + " cache_read="@
        + text::decimal(t.cache_read as nat)
}

/// The log line for one metered response.
pub open spec fn report_text(
    provider: Seq<char>,
    model: Seq<char>,
    t: Tokens,
    grand: Tokens,
) -> Seq<char> {
    "["@ + provider + "/"@ + model + "] "@ + counts_text(t) + " | total "@ + counts_text(grand)
}

/// Usage since the start: per provider and model, in all, and the number of
/// responses that were metered.
pub struct Totals {
    pub by_model: NameMap<Tokens>,
    pub grand: Tokens,
    pub requests: u64,
}

impl Default for Totals {
    fn default() -> (r: Totals)
        ensures
            r.by_model@ == Map::<Seq<char>, Tokens>::empty(),
            r.grand == no_tokens(),
            r.requests == 0,
            r.balanced(),
    {
        Totals { by_model: NameMap::new(), grand: Tokens::default(), requests: 0 }
    }
}

impl Totals {
    /// The total of a provider's model.
    pub open spec fn of(self, provider: Seq<char>, model: Seq<char>) -> Tokens {
        if self.by_model@.dom().contains(usage_key(provider, model)) {
            self.by_model@[usage_key(provider, model)]
        } else {
            no_tokens()
        }
    }

    /// Whether the grand total is the sum of the totals of the models.
    pub open spec fn balanced(self) -> bool {
        let listing = self.by_model.listing();
        &&& self.grand.input == count_sum(listing, |t: Tokens| t.input as int)
        &&& self.grand.output == count_sum(listing, |t: Tokens| t.output as int)
        &&& self.grand.cache_create == count_sum(listing, |t: Tokens| t.cache_create as int)
        &&& self.grand.cache_read == count_sum(listing, |t: Tokens| t.cache_read as int)
    }

    /// Whether the totals can take the counts of one response more.
    pub open spec fn has_room_for(
        self,
        provider: Seq<char>,
        model: Seq<char>,
        t: Tokens,
    ) -> bool {
        &&& self.of(provider, model).has_room_for(t)
        &&& self.grand.has_room_for(t)
        &&& self.requests < u64::MAX
    }

    /// Whether `after` is these totals with the counts of one response more.
    pub open spec fn recorded(
        self,
        after: Totals,
        provider: Seq<char>,
        model: Seq<char>,
        t: Tokens,
    ) -> bool {
        &&& after.by_model@ == self.by_model@.insert(
            usage_key(provider, model),
            self.of(provider, model).plus(t),
        )
        &&& after.grand == self.grand.plus(t)
        &&& after.requests == self.requests + 1
    }

    /// Adds the counts of one response of `model` at `provider`, and hands out
    /// the new grand total.
    pub fn record(&mut self, provider: &str, model: &str, t: &Tokens) -> (r: Tokens)
        requires
            old(self).has_room_for(provider@, model@, *t),
        ensures
            old(self).recorded(*final(self), provider@, model@, *t),
            r == final(self).grand,
            old(self).balanced() ==> final(self).balanced(),
    {
        let key = usage_name(provider, model);
        let mut entry = self.total_of(key.as_str());
        entry.add(t);
        self.by_model.insert(key, entry);
        self.grand.add(t);
        self.requests = self.requests + 1;
        proof {
            let before = old(self).by_model.listing();
            let after = self.by_model.listing();
            lemma_count_placed(before, after, key@, entry, |t: Tokens| t.input as int);
            lemma_count_placed(before, after, key@, entry, |t: Tokens| t.output as int);
            lemma_count_placed(before, after, key@, entry, |t: Tokens| t.cache_create as int);
            lemma_count_placed(before, after, key@, entry, |t: Tokens| t.cache_read as int);
        }
        self.grand
    }

    /// Whether the counts of one response of `model` at `provider` can be
    /// recorded.
    pub fn can_record(&self, provider: &str, model: &str, t: &Tokens) -> (r: bool)
        ensures
            r == self.has_room_for(provider@, model@, *t),
    {
        let key = usage_name(provider, model);
        let entry = self.total_of(key.as_str());
        entry.can_add(t) && self.grand.can_add(t) && self.requests < u64::MAX
    }

    /// The table of totals, line by line.
    pub open spec fn table(self) -> Seq<Seq<char>> {
        if self.by_model.listing().len() == 0 {
            seq!["clavem: no usage recorded"@]
        } else {
            seq![
                "clavem totals ("@ + text::decimal(self.requests as nat) + " requests):"@,
                row("model"@, "input"@, "output"@, "cache_create"@, "cache_read"@),
            ] + self.by_model.listing().map_values(
                |e: (Seq<char>, Tokens)| tokens_row(e.0, e.1),
            ) + seq![tokens_row("TOTAL"@, self.grand)]
        }
    }

    /// The lines that are printed at shutdown: one per provider and model in
    /// the order of their names, and the grand total.
    pub fn print(&self) -> (r: Vec<String>)
        ensures
            r@.map_values(|line: String| line@) == self.table(),
            names::ascending(self.by_model.listing()),
    {
        let mut r: Vec<String> = Vec::new();
        let entries = self.by_model.entries();
        if self.by_model.is_empty() {
            r.push("clavem: no usage recorded".to_string());
            assert(r@.map_values(|line: String| line@) =~= self.table());
            return r;
        }
        let mut title = "clavem totals (".to_string();
        title.append(text::decimal_text(self.requests).as_str());
        title.append(" requests):");
        r.push(title);
        r.push(row_text("model", "input", "output", "cache_create", "cache_read"));
        let ghost listing = self.by_model.listing();
        let ghost rows = listing.map_values(|e: (Seq<char>, Tokens)| tokens_row(e.0, e.1));
        let ghost head = r@.map_values(|line: String| line@);
        let mut i: usize = 0;
        assert(head =~= head + rows.take(0));
        while i < entries.len()
            invariant
                i <= entries@.len(),
                entries@.len() == listing.len() == rows.len(),
                forall|j: int|
                    0 <= j < entries@.len() ==> (#[trigger] entries@[j]).0@ == listing[j].0
                        && entries@[j].1 == listing[j].1,
                rows == listing.map_values(|e: (Seq<char>, Tokens)| tokens_row(e.0, e.1)),
                r@.map_values(|line: String| line@) == head + rows.take(i as int),
            decreases entries@.len() - i,
        {
            let ghost before = r@;
            r.push(tokens_text(entries[i].0.as_str(), &entries[i].1));
            proof {
                assert(r@.map_values(|line: String| line@) =~= before.map_values(
                    |line: String| line@,
                ).push(rows[i as int]));
                assert(rows.take(i + 1) =~= rows.take(i as int).push(rows[i as int]));
                assert(head + rows.take(i + 1) =~= (head + rows.take(i as int)).push(
                    rows[i as int],
                ));
            }
            i = i + 1;
        }
        let ghost before = r@;
        r.push(tokens_text("TOTAL", &self.grand));
        proof {
            assert(rows.take(i as int) =~= rows);
            assert(r@.map_values(|line: String| line@) =~= before.map_values(
                |line: String| line@,
            ).push(tokens_row("TOTAL"@, self.grand)));
            assert(r@.map_values(|line: String| line@) =~= self.table());
        }
        r
    }

    fn total_of(&self, key: &str) -> (r: Tokens)
        ensures
            r == (if self.by_model@.dom().contains(key@) {
                self.by_model@[key@]
            } else {
                no_tokens()
            }),
    {
        match self.by_model.get(key) {
            Some(t) => *t,
            None => Tokens::default(),
        }
    }
}

/// The name under which the usage of a provider's model is totalled.
fn usage_name(provider: &str, model: &str) -> (r: String)
    ensures
        r@ == usage_key(provider@, model@),
{
    let mut key = provider.to_string();
    key.append("/");
    key.append(model);
    key
}

fn row_text(name: &str, input: &str, output: &str, cache_create: &str, cache_read: &str) -> (r:
    String)
    ensures
        r@ == row(name@, input@, output@, cache_create@, cache_read@),
{
    let mut r = "  ".to_string();
    r.append(text::padded_right(name, 32).as_str());
    r.append(" ");
    r.append(text::padded_left(input, 10).as_str());
    r.append(" ");
    r.append(text::padded_left(output, 10).as_str());
    r.append(" ");
    r.append(text::padded_left(cache_create, 14).as_str());
    r.append(" ");
    r.append(text::padded_left(cache_read, 12).as_str());
    r
}

fn tokens_text(name: &str, t: &Tokens) -> (r: String)
    ensures
        r@ == tokens_row(name@, *t),
{
    row_text(
        name,
        text::decimal_text(t.input).as_str(),
        text::decimal_text(t.output).as_str(),
        text::decimal_text(t.cache_create).as_str(),
        text::decimal_text(t.cache_read).as_str(),
    )
}

fn counts(t: &Tokens) -> (r: String)
    ensures
        r@ == counts_text(*t),
{
    let mut r = "in=".to_string();
    r.append(text::decimal_text(t.input).as_str());
    r.append(" out=");
    r.append(text::decimal_text(t.output).as_str());
    r.append(" cache_create=");
    r.append(text::decimal_text(t.cache_create).as_str());
    r.append(" cache_read=");
    r.append(text::decimal_text(t.cache_read).as_str());
    r
}

/// The log line for one metered response: its counts, and the grand total
/// that they led to.
pub fn report_request(provider: &str, model: &str, t: &Tokens, grand: &Tokens) -> (r: String)
    ensures
        r@ == report_text(provider@, model@, *t, *grand),
{
    let mut r = "[".to_string();
    r.append(provider);
    r.append("/");
    r.append(model);
    r.append("] ");
    r.append(counts(t).as_str());
    r.append(" | total ");
    r.append(counts(grand).as_str());
    r
}

/// Usage is totalled per provider and model: as long as provider names hold no
/// slash, no two pairs of provider and model share a total.
pub proof fn law_usage_keys_are_distinct(
    provider1: Seq<char>,
    model1: Seq<char>,
    provider2: Seq<char>,
    model2: Seq<char>,
)
    requires
        !provider1.contains('/'),
        !provider2.contains('/'),
        usage_key(provider1, model1) == usage_key(provider2, model2),
    ensures
        provider1 == provider2,
        model1 == model2,
{
    reveal_strlit("/");
    let key1 = usage_key(provider1, model1);
    let key2 = usage_key(provider2, model2);
    let n1 = provider1.len() as int;
    let n2 = provider2.len() as int;
    assert(key1[n1] == '/');
    assert(key2[n2] == '/');
    if n1 < n2 {
        assert(key2[n1] == provider2[n1]);
    }
    if n2 < n1 {
        assert(key1[n2] == provider1[n2]);
    }
    assert(provider1 =~= key1.take(n1));
    assert(provider2 =~= key2.take(n1));
    assert(model1 =~= key1.skip(n1 + 1));
    assert(model2 =~= key2.skip(n1 + 1));
}

/// A response adds to the total of its own provider and model, and to no other.
pub proof fn law_record_adds_to_one_total(
    before: Totals,
    after: Totals,
    provider: Seq<char>,
    model: Seq<char>,
    t: Tokens,
    other_provider: Seq<char>,
    other_model: Seq<char>,
)
    requires
        before.recorded(after, provider, model, t),
        !provider.contains('/'),
        !other_provider.contains('/'),
    ensures
        after.of(other_provider, other_model) == (if other_provider == provider && other_model
            == model {
            before.of(provider, model).plus(t)
        } else {
            before.of(other_provider, other_model)
        }),
{
    if usage_key(provider, model) == usage_key(other_provider, other_model) {
        law_usage_keys_are_distinct(provider, model, other_provider, other_model);
    }
}

proof fn lemma_count_update(
    listing: Seq<(Seq<char>, Tokens)>,
    at: int,
    entry: (Seq<char>, Tokens),
    count: spec_fn(Tokens) -> int,
)
    requires
        0 <= at < listing.len(),
    ensures
        count_sum(listing.update(at, entry), count) == count_sum(listing, count) - count(
            listing[at].1,
        ) + count(entry.1),
    decreases listing.len(),
{
    let after = listing.update(at, entry);
    if at == listing.len() - 1 {
        assert(after.drop_last() =~= listing.drop_last());
    } else {
        lemma_count_update(listing.drop_last(), at, entry, count);
        assert(after.drop_last() =~= listing.drop_last().update(at, entry));
    }
}

proof fn lemma_count_insert(
    listing: Seq<(Seq<char>, Tokens)>,
    at: int,
    entry: (Seq<char>, Tokens),
    count: spec_fn(Tokens) -> int,
)
    requires
        0 <= at <= listing.len(),
    ensures
        count_sum(listing.insert(at, entry), count) == count_sum(listing, count) + count(entry.1),
    decreases listing.len(),
{
    let after = listing.insert(at, entry);
    if at == listing.len() {
        assert(after.drop_last() =~= listing);
    } else {
        lemma_count_insert(listing.drop_last(), at, entry, count);
        assert(after.drop_last() =~= listing.drop_last().insert(at, entry));
        assert(after.last() == listing.last());
    }
}

/// What putting `value` under `name` does to the sum of a count: the sum grows
/// by what `value` counts more than what stood there.
proof fn lemma_count_placed(
    before: Seq<(Seq<char>, Tokens)>,
    after: Seq<(Seq<char>, Tokens)>,
    name: Seq<char>,
    value: Tokens,
    count: spec_fn(Tokens) -> int,
)
    requires
        names::ascending(before),
        exists|at: int| #[trigger] names::placed(before, after, at, name, value),
        count(no_tokens()) == 0,
    ensures
        count_sum(after, count) == count_sum(before, count) + count(value) - count(
            if names::map_of(before).dom().contains(name) {
                names::map_of(before)[name]
            } else {
                no_tokens()
            },
        ),
{
    let at = choose|at: int| #[trigger] names::placed(before, after, at, name, value);
    if 0 <= at < before.len() && before[at].0 == name && after == before.update(
        at,
        (name, value),
    ) {
        names::lemma_map_of_entry(before, at);
        lemma_count_update(before, at, (name, value), count);
    } else {
        lemma_count_insert(before, at, (name, value), count);
    }
}

/// Counts can be added where no sum leaves a `u64`, and each count of the sum
/// is the sum of the two counts.
pub proof fn law_adding_counts(a: Tokens, b: Tokens)
    ensures
        a.has_room_for(b) <==> a.input + b.input <= u64::MAX && a.output + b.output <= u64::MAX
            && a.cache_create + b.cache_create <= u64::MAX && a.cache_read + b.cache_read
            <= u64::MAX,
        a.has_room_for(b) ==> {
            &&& a.plus(b).input == a.input + b.input
            &&& a.plus(b).output == a.output + b.output
            &&& a.plus(b).cache_create == a.cache_create + b.cache_create
            &&& a.plus(b).cache_read == a.cache_read + b.cache_read
        },
        no_tokens().input == 0,
        no_tokens().output == 0,
        no_tokens().cache_create == 0,
        no_tokens().cache_read == 0,
{
}

/// The total of a provider's model is what is kept under `provider/model`, and
/// zero where nothing is.
pub proof fn law_total_of_a_model(totals: Totals, provider: Seq<char>, model: Seq<char>)
    ensures
        totals.by_model@.dom().contains(provider + "/"@ + model) ==> totals.of(provider, model)
            == totals.by_model@[provider + "/"@ + model],
        !totals.by_model@.dom().contains(provider + "/"@ + model) ==> totals.of(provider, model)
            == (Tokens { input: 0, output: 0, cache_create: 0, cache_read: 0 }),
{
}

/// A response can be recorded where its counts fit into the total of its model
/// and into the grand total. It adds one to the number of responses, and its
/// counts to the grand total and to what is kept under `provider/model`; what
/// is kept under other names stays.
pub proof fn law_recording(
    before: Totals,
    after: Totals,
    provider: Seq<char>,
    model: Seq<char>,
    t: Tokens,
)
    requires
        before.recorded(after, provider, model, t),
        before.requests < u64::MAX,
        before.of(provider, model).input + t.input <= u64::MAX,
        before.grand.input + t.input <= u64::MAX,
        before.of(provider, model).output + t.output <= u64::MAX,
        before.grand.output + t.output <= u64::MAX,
        before.of(provider, model).cache_create + t.cache_create <= u64::MAX,
        before.grand.cache_create + t.cache_create <= u64::MAX,
        before.of(provider, model).cache_read + t.cache_read <= u64::MAX,
        before.grand.cache_read + t.cache_read <= u64::MAX,
    ensures
        before.has_room_for(provider, model, t),
        after.requests == before.requests + 1,
        after.grand.input == before.grand.input + t.input,
        after.grand.output == before.grand.output + t.output,
        after.grand.cache_create == before.grand.cache_create + t.cache_create,
        after.grand.cache_read == before.grand.cache_read + t.cache_read,
        after.by_model@.dom() == before.by_model@.dom().insert(provider + "/"@ + model),
        after.by_model@[provider + "/"@ + model].input == before.of(provider, model).input
            + t.input,
        after.by_model@[provider + "/"@ + model].output == before.of(provider, model).output
            + t.output,
        after.by_model@[provider + "/"@ + model].cache_create == before.of(
            provider,
            model,
        ).cache_create + t.cache_create,
        after.by_model@[provider + "/"@ + model].cache_read == before.of(provider, model).cache_read
            + t.cache_read,
        forall|name: Seq<char>|
            name != provider + "/"@ + model && before.by_model@.dom().contains(name) ==> (
            #[trigger] after.by_model@[name]) == before.by_model@[name],
{
    assert(after.by_model@.dom() =~= before.by_model@.dom().insert(provider + "/"@ + model));
}

proof fn lemma_sum_is_fold(listing: Seq<(Seq<char>, Tokens)>, count: spec_fn(Tokens) -> int)
    ensures
        count_sum(listing, count) == listing.fold_left(
            0int,
            |sum: int, e: (Seq<char>, Tokens)| sum + count(e.1),
        ),
    decreases listing.len(),
{
    reveal_with_fuel(Seq::fold_left, 2);
    if listing.len() > 0 {
        lemma_sum_is_fold(listing.drop_last(), count);
    }
}

/// In totals that balance, each count of the grand total is the sum of that
/// count over all entries.
pub proof fn law_grand_total(totals: Totals)
    requires
        totals.balanced(),
    ensures
        totals.grand.input == totals.by_model.listing().fold_left(
            0int,
            |sum: int, e: (Seq<char>, Tokens)| sum + e.1.input,
        ),
        totals.grand.output == totals.by_model.listing().fold_left(
            0int,
            |sum: int, e: (Seq<char>, Tokens)| sum + e.1.output,
        ),
        totals.grand.cache_create == totals.by_model.listing().fold_left(
            0int,
            |sum: int, e: (Seq<char>, Tokens)| sum + e.1.cache_create,
        ),
        totals.grand.cache_read == totals.by_model.listing().fold_left(
            0int,
            |sum: int, e: (Seq<char>, Tokens)| sum + e.1.cache_read,
        ),
{
    let listing = totals.by_model.listing();
    lemma_sum_is_fold(listing, |t: Tokens| t.input as int);
    assert((|sum: int, e: (Seq<char>, Tokens)| sum + (|t: Tokens| t.input as int)(e.1)) =~= (
    |sum: int, e: (Seq<char>, Tokens)| sum + e.1.input));
    lemma_sum_is_fold(listing, |t: Tokens| t.output as int);
    assert((|sum: int, e: (Seq<char>, Tokens)| sum + (|t: Tokens| t.output as int)(e.1)) =~= (
    |sum: int, e: (Seq<char>, Tokens)| sum + e.1.output));
    lemma_sum_is_fold(listing, |t: Tokens| t.cache_create as int);
    assert((|sum: int, e: (Seq<char>, Tokens)| sum + (|t: Tokens| t.cache_create as int)(e.1)) =~= (
    |sum: int, e: (Seq<char>, Tokens)| sum + e.1.cache_create));
    lemma_sum_is_fold(listing, |t: Tokens| t.cache_read as int);
    assert((|sum: int, e: (Seq<char>, Tokens)| sum + (|t: Tokens| t.cache_read as int)(e.1)) =~= (
    |sum: int, e: (Seq<char>, Tokens)| sum + e.1.cache_read));
}

/// Where any usage is recorded, the first line that is printed says how many
/// responses were recorded.
pub proof fn law_first_line_gives_the_number_of_requests(totals: Totals, key: Seq<char>)
    requires
        totals.by_model@.dom().contains(key),
    ensures
        totals.table().len() > 0,
        totals.table()[0] == "clavem totals ("@ + text::decimal(totals.requests as nat)
            + " requests):"@,
{
    names::lemma_map_of_names(totals.by_model.listing(), key);
}

/// After one response more, of whichever model, the first line that is printed
/// gives a number that is one higher.
pub proof fn law_each_response_raises_the_printed_number(
    before: Totals,
    after: Totals,
    provider: Seq<char>,
    model: Seq<char>,
    t: Tokens,
)
    requires
        before.recorded(after, provider, model, t),
    ensures
        after.table()[0] == "clavem totals ("@ + text::decimal((before.requests + 1) as nat)
            + " requests):"@,
{
    law_first_line_gives_the_number_of_requests(after, usage_key(provider, model));
}

/// The lines after the first: the names of the columns, a line for each entry in
/// their order, with its own four counts, and a line for the grand total.
pub proof fn law_lines_of_the_table(totals: Totals, i: int)
    requires
        0 <= i < totals.by_model.listing().len(),
    ensures
        totals.table().len() == totals.by_model.listing().len() + 3,
        totals.table()[1] == "  "@ + text::pad_right("model"@, 32) + " "@ + text::pad_left(
            "input"@,
            10,
        ) + " "@ + text::pad_left("output"@, 10) + " "@ + text::pad_left("cache_create"@, 14)
            + " "@ + text::pad_left("cache_read"@, 12),
        ({
            let (name, t) = totals.by_model.listing()[i];
            totals.table()[i + 2] == "  "@ + text::pad_right(name, 32)
                + " "@ + text::pad_left(text::decimal(t.input as nat), 10)
                + " "@ + text::pad_left(text::decimal(t.output as nat), 10)
                + " "@ + text::pad_left(text::decimal(t.cache_create as nat), 14)
                + " "@ + text::pad_left(text::decimal(t.cache_read as nat), 12)
        }),
        ({
            let t = totals.grand;
            totals.table().last() == "  "@ + text::pad_right("TOTAL"@, 32)
                + " "@ + text::pad_left(text::decimal(t.input as nat), 10)
                + " "@ + text::pad_left(text::decimal(t.output as nat), 10)
                + " "@ + text::pad_left(text::decimal(t.cache_create as nat), 14)
                + " "@ + text::pad_left(text::decimal(t.cache_read as nat), 12)
        }),
{
}

/// Without recorded usage one line says so.
pub proof fn law_line_without_usage(totals: Totals)
    requires
        totals.by_model.listing().len() == 0,
    ensures
        totals.table() == seq!["clavem: no usage recorded"@],
{
}

/// The log line of a response names its provider and model, and shows its own
/// four counts first and the four counts of the grand total behind them.
pub proof fn law_log_line(provider: Seq<char>, model: Seq<char>, t: Tokens, grand: Tokens)
    ensures
        report_text(provider, model, t, grand) == "["@ + provider + "/"@ + model + "] "@
            + ("in="@ + text::decimal(t.input as nat)
            + " out="@ + text::decimal(t.output as nat)
            + " cache_create="@ + text::decimal(t.cache_create as nat)
            + " cache_read="@ + text::decimal(t.cache_read as nat)) + " | total "@
            + ("in="@ + text::decimal(grand.input as nat)
            + " out="@ + text::decimal(grand.output as nat)
            + " cache_create="@ + text::decimal(grand.cache_create as nat)
            + " cache_read="@ + text::decimal(grand.cache_read as nat)),
{
}

/// There is room for a response exactly where none of its counts takes the total
/// of its model or the grand total beyond a `u64`, nor the number of responses.
pub proof fn law_room_for_a_response(
    totals: Totals,
    provider: Seq<char>,
    model: Seq<char>,
    t: Tokens,
)
    ensures
        totals.has_room_for(provider, model, t) <==> {
            &&& totals.requests + 1 <= u64::MAX
            &&& totals.of(provider, model).input + t.input <= u64::MAX
            &&& totals.grand.input + t.input <= u64::MAX
            &&& totals.of(provider, model).output + t.output <= u64::MAX
            &&& totals.grand.output + t.output <= u64::MAX
            &&& totals.of(provider, model).cache_create + t.cache_create <= u64::MAX
            &&& totals.grand.cache_create + t.cache_create <= u64::MAX
            &&& totals.of(provider, model).cache_read + t.cache_read <= u64::MAX
            &&& totals.grand.cache_read + t.cache_read <= u64::MAX
        },
{
}

} // verus!
