//! Tokens spent, added up per calendar day and per model.
use crate::daily::days_in_range;
use crate::text::{
    lemma_text_order, lemma_text_order_transitive, precedes, text_precedes,
};
use crate::time::day_in_range;
use std::collections::BTreeMap;
use vstd::prelude::*;

verus! {

/// What one model was used for.
#[derive(Clone, Debug)]
pub struct ModelUsageSummary {
    pub model: String,
    pub tokens: i64,
    pub cached_input_tokens: i64,
}

/// The two sums that are kept per model.
pub struct ModelTotals {
    pub tokens: int,
    pub cached_input_tokens: int,
}

impl ModelUsageSummary {
    pub open spec fn totals(self) -> ModelTotals {
        ModelTotals {
            tokens: self.tokens as int,
            cached_input_tokens: self.cached_input_tokens as int,
        }
    }
}

/// Whether the summaries are in ascending order of their model names, each name
/// occurring once.
pub open spec fn models_ascend(models: Seq<ModelUsageSummary>) -> bool {
    forall|i: int, j: int|
        0 <= i < j < models.len() ==> text_precedes(
            (#[trigger] models[i]).model@,
            (#[trigger] models[j]).model@,
        )
}

pub open spec fn names_model(models: Seq<ModelUsageSummary>, i: int, name: Seq<char>) -> bool {
    0 <= i < models.len() && models[i].model@ == name
}

/// The sums per model name.
pub open spec fn model_map(models: Seq<ModelUsageSummary>) -> Map<Seq<char>, ModelTotals> {
    Map::new(
        |name: Seq<char>| exists|i: int| names_model(models, i, name),
        |name: Seq<char>| models[choose|i: int| names_model(models, i, name)].totals(),
    )
}

/// The sums of a tally.
#[verifier::ext_equal]
pub struct Totals {
    pub by_day: Map<i32, i64>,
    pub by_model: Map<Seq<char>, ModelTotals>,
}

impl Totals {
    /// The tokens recorded for a day.
    pub open spec fn day_tokens(self, day: i32) -> int {
        if self.by_day.contains_key(day) {
            self.by_day[day] as int
        } else {
            0
        }
    }

    /// The sums recorded for a model.
    pub open spec fn model_totals(self, name: Seq<char>) -> ModelTotals {
        if self.by_model.contains_key(name) {
            self.by_model[name]
        } else {
            ModelTotals { tokens: 0, cached_input_tokens: 0 }
        }
    }

    /// Whether the three sums that a use of a model changes stay within 64 bits.
    pub open spec fn has_room(
        self,
        name: Seq<char>,
        tokens: int,
        cached_input_tokens: int,
        day: i32,
    ) -> bool {
        let model = self.model_totals(name);
        &&& i64::MIN <= self.day_tokens(day) + tokens <= i64::MAX
        &&& i64::MIN <= model.tokens + tokens <= i64::MAX
        &&& i64::MIN <= model.cached_input_tokens + cached_input_tokens <= i64::MAX
    }

    /// The sums after one more use of a model.
    pub open spec fn with_usage(
        self,
        name: Seq<char>,
        tokens: int,
        cached_input_tokens: int,
        day: i32,
    ) -> Totals {
        let model = self.model_totals(name);
        Totals {
            by_day: self.by_day.insert(day, (self.day_tokens(day) + tokens) as i64),
            by_model: self.by_model.insert(
                name,
                ModelTotals {
                    tokens: model.tokens + tokens,
                    cached_input_tokens: model.cached_input_tokens + cached_input_tokens,
                },
            ),
        }
    }
}

/// The map of a table in order holds each of its summaries and nothing else.
pub proof fn lemma_model_map(models: Seq<ModelUsageSummary>)
    requires
        models_ascend(models),
    ensures
        forall|i: int|
            0 <= i < models.len() ==> model_map(models).contains_key(
                (#[trigger] models[i]).model@,
            ) && model_map(models)[models[i].model@] == models[i].totals(),
        forall|name: Seq<char>| #[trigger]
            model_map(models).contains_key(name) ==> exists|i: int| names_model(models, i, name),
{
    assert forall|i: int| 0 <= i < models.len() implies model_map(models).contains_key(
        (#[trigger] models[i]).model@,
    ) && model_map(models)[models[i].model@] == models[i].totals() by {
        let name = models[i].model@;
        assert(names_model(models, i, name));
        let k = choose|k: int| names_model(models, k, name);
        lemma_text_order(name, name);
        assert(k == i);
    }
}

proof fn lemma_model_replaced(
    models: Seq<ModelUsageSummary>,
    place: int,
    summary: ModelUsageSummary,
)
    requires
        models_ascend(models),
        0 <= place < models.len(),
        models[place].model@ == summary.model@,
    ensures
        models_ascend(models.update(place, summary)),
        model_map(models.update(place, summary)) == model_map(models).insert(
            summary.model@,
            summary.totals(),
        ),
{
    let after = models.update(place, summary);
    assert(models_ascend(after));
    lemma_model_map(models);
    lemma_model_map(after);
    let name = summary.model@;
    let lhs = model_map(after);
    let rhs = model_map(models).insert(name, summary.totals());
    assert forall|key: Seq<char>| lhs.contains_key(key) <==> rhs.contains_key(key) by {
        if lhs.contains_key(key) {
            let i = choose|i: int| names_model(after, i, key);
            assert(models[i].model@ == key);
        }
        if rhs.contains_key(key) && key != name {
            let i = choose|i: int| names_model(models, i, key);
            assert(after[i].model@ == key);
        }
        assert(after[place].model@ == name);
    }
    assert forall|key: Seq<char>| lhs.contains_key(key) implies lhs[key] == rhs[key] by {
        let i = choose|i: int| names_model(after, i, key);
        assert(after[i].model@ == key);
        lemma_text_order(name, name);
        if key != name {
            assert(models[i].model@ == key);
        } else {
            assert(after[place].model@ == name);
        }
    }
    assert(lhs =~= rhs);
}

proof fn lemma_model_inserted(
    models: Seq<ModelUsageSummary>,
    place: int,
    summary: ModelUsageSummary,
)
    requires
        models_ascend(models),
        0 <= place <= models.len(),
        forall|i: int|
            0 <= i < place ==> text_precedes((#[trigger] models[i]).model@, summary.model@),
        place < models.len() ==> text_precedes(summary.model@, models[place].model@),
    ensures
        !model_map(models).contains_key(summary.model@),
        models_ascend(models.insert(place, summary)),
        model_map(models.insert(place, summary)) == model_map(models).insert(
            summary.model@,
            summary.totals(),
        ),
{
    let after = models.insert(place, summary);
    let name = summary.model@;
    assert forall|i: int| place <= i < models.len() implies text_precedes(
        name,
        (#[trigger] models[i]).model@,
    ) by {
        if i > place {
            lemma_text_order_transitive(name, models[place].model@, models[i].model@);
        }
    }
    assert forall|i: int, j: int| 0 <= i < j < after.len() implies text_precedes(
        (#[trigger] after[i]).model@,
        (#[trigger] after[j]).model@,
    ) by {
        let oi = if i < place { i } else { i - 1 };
        let oj = if j < place { j } else { j - 1 };
        assert(i != place ==> after[i] == models[oi]);
        assert(j != place ==> after[j] == models[oj]);
    }
    lemma_model_map(models);
    lemma_model_map(after);
    lemma_text_order(name, name);
    assert(!model_map(models).contains_key(name)) by {
        if model_map(models).contains_key(name) {
            let i = choose|i: int| names_model(models, i, name);
            assert(models[i].model@ == name);
        }
    }
    let lhs = model_map(after);
    let rhs = model_map(models).insert(name, summary.totals());
    assert(after[place].model@ == name);
    assert forall|key: Seq<char>| lhs.contains_key(key) <==> rhs.contains_key(key) by {
        if lhs.contains_key(key) {
            let i = choose|i: int| names_model(after, i, key);
            if i != place {
                let oi = if i < place { i } else { i - 1 };
                assert(models[oi].model@ == key);
            }
        }
        if rhs.contains_key(key) && key != name {
            let i = choose|i: int| names_model(models, i, key);
            let ni = if i < place { i } else { i + 1 };
            assert(after[ni].model@ == key);
        }
    }
    assert forall|key: Seq<char>| lhs.contains_key(key) implies lhs[key] == rhs[key] by {
        let i = choose|i: int| names_model(after, i, key);
        assert(after[i].model@ == key);
        if key != name {
            let oi = if i < place { i } else { i - 1 };
            assert(models[oi].model@ == key);
        }
    }
    assert(lhs =~= rhs);
}

/// Tokens spent per day and per model.
#[derive(Debug)]
pub struct UsageTally {
    /// The tokens of each day, by day number.
    pub by_day: BTreeMap<i32, i64>,
    /// The summaries of the models, in ascending order of their names.
    pub by_model: Vec<ModelUsageSummary>,
}

impl View for UsageTally {
    type V = Totals;

    open spec fn view(&self) -> Totals {
        Totals { by_day: self.by_day@, by_model: model_map(self.by_model@) }
    }
}

impl UsageTally {
    pub open spec fn wf(self) -> bool {
        days_in_range(self.by_day@) && models_ascend(self.by_model@)
    }

    /// A tally of nothing.
    pub fn new() -> (tally: UsageTally)
        ensures
            tally.wf(),
            tally@ == (Totals { by_day: Map::empty(), by_model: Map::empty() }),
    {
        let tally = UsageTally { by_day: BTreeMap::new(), by_model: Vec::new() };
        proof {
            assert(tally@ =~= (Totals { by_day: Map::empty(), by_model: Map::empty() }));
        }
        tally
    }

    /// The first place in the table whose model name does not come before `name`.
    fn place_of(&self, name: &str) -> (place: usize)
        requires
            self.wf(),
        ensures
            place <= self.by_model@.len(),
            forall|i: int|
                0 <= i < place ==> text_precedes((#[trigger] self.by_model@[i]).model@, name@),
            place < self.by_model@.len() ==> !text_precedes(
                self.by_model@[place as int].model@,
                name@,
            ),
    {
        let mut place: usize = 0;
        while place < self.by_model.len() && precedes(self.by_model[place].model.as_str(), name)
            invariant
                place <= self.by_model@.len(),
                forall|i: int|
                    0 <= i < place ==> text_precedes((#[trigger] self.by_model@[i]).model@, name@),
            decreases self.by_model.len() - place,
        {
            place += 1;
        }
        place
    }

    /// Adds one use of a model to the sums of the day and of the model. The tally
    /// stays as it is, and the answer is `false`, where a sum would leave the
    /// range of 64-bit integers.
    pub fn record_usage(
        &mut self,
        name: &str,
        tokens: i64,
        cached_input_tokens: i64,
        day: i32,
    ) -> (recorded: bool)
        requires
            old(self).wf(),
            day_in_range(day as int),
        ensures
            final(self).wf(),
            recorded == old(self)@.has_room(
                name@,
                tokens as int,
                cached_input_tokens as int,
                day,
            ),
            recorded ==> final(self)@ == old(self)@.with_usage(
                name@,
                tokens as int,
                cached_input_tokens as int,
                day,
            ),
            !recorded ==> *final(self) == *old(self),
    {
        let place: usize = self.place_of(name);
        let known: bool = place < self.by_model.len() && !precedes(
            name,
            self.by_model[place].model.as_str(),
        );
        let ghost models = self.by_model@;
        proof {
            lemma_model_map(models);
            if known {
                lemma_text_order(name@, models[place as int].model@);
            }
        }
        let day_before: i64 = match self.by_day.get(&day) {
            Some(before) => *before,
            None => 0,
        };
        let (model_before, cached_before): (i64, i64) = if known {
            (self.by_model[place].tokens, self.by_model[place].cached_input_tokens)
        } else {
            (0, 0)
        };
        let summary = match (
            day_before.checked_add(tokens),
            model_before.checked_add(tokens),
            cached_before.checked_add(cached_input_tokens),
        ) {
            (Some(day_after), Some(model_after), Some(cached_after)) => {
                self.by_day.insert(day, day_after);
                ModelUsageSummary {
                    model: name.to_owned(),
                    tokens: model_after,
                    cached_input_tokens: cached_after,
                }
            },
            _ => {
                return false;
            },
        };
        if known {
            proof {
                lemma_model_replaced(models, place as int, summary);
            }
            self.by_model.set(place, summary);
        } else {
            proof {
                lemma_model_inserted(models, place as int, summary);
            }
            self.by_model.insert(place, summary);
        }
        proof {
            assert(self@ =~= old(self)@.with_usage(
                name@,
                tokens as int,
                cached_input_tokens as int,
                day,
            ));
        }
        true
    }
}

/// Recording a use of a model changes the sums of that day and that model alone.
pub proof fn law_usage_touches_one_day_and_one_model(
    totals: Totals,
    name: Seq<char>,
    tokens: int,
    cached_input_tokens: int,
    day: i32,
    other_name: Seq<char>,
    other_day: i32,
)
    requires
        totals.has_room(name, tokens, cached_input_tokens, day),
    ensures
        ({
            let after = totals.with_usage(name, tokens, cached_input_tokens, day);
            &&& after.day_tokens(day) == totals.day_tokens(day) + tokens
            &&& after.model_totals(name).tokens == totals.model_totals(name).tokens + tokens
            &&& after.model_totals(name).cached_input_tokens == totals.model_totals(
                name,
            ).cached_input_tokens + cached_input_tokens
            &&& other_day != day ==> after.day_tokens(other_day) == totals.day_tokens(other_day)
            &&& other_name != name ==> after.model_totals(other_name) == totals.model_totals(
                other_name,
            )
        }),
{
}

/// Two uses may be recorded in either order.
pub proof fn law_usages_commute(
    totals: Totals,
    first: (Seq<char>, int, int, i32),
    second: (Seq<char>, int, int, i32),
)
    requires
        totals.has_room(first.0, first.1, first.2, first.3),
        totals.has_room(second.0, second.1, second.2, second.3),
        totals.with_usage(first.0, first.1, first.2, first.3).has_room(
            second.0,
            second.1,
            second.2,
            second.3,
        ),
    ensures
        totals.with_usage(first.0, first.1, first.2, first.3).with_usage(
            second.0,
            second.1,
            second.2,
            second.3,
        ) == totals.with_usage(second.0, second.1, second.2, second.3).with_usage(
            first.0,
            first.1,
            first.2,
            first.3,
        ),
{
    let one = totals.with_usage(first.0, first.1, first.2, first.3).with_usage(
        second.0,
        second.1,
        second.2,
        second.3,
    );
    let other = totals.with_usage(second.0, second.1, second.2, second.3).with_usage(
        first.0,
        first.1,
        first.2,
        first.3,
    );
    assert(one.by_day =~= other.by_day);
    assert(one.by_model =~= other.by_model);
}

/// The sums that are recorded for a day and for a model are those of the maps, and
/// nothing where the maps hold none.
pub proof fn law_recorded_sums(totals: Totals, day: i32, name: Seq<char>)
    ensures
        totals.by_day.contains_key(day) ==> totals.day_tokens(day) == totals.by_day[day],
        !totals.by_day.contains_key(day) ==> totals.day_tokens(day) == 0,
        totals.by_model.contains_key(name) ==> totals.model_totals(name) == totals.by_model[name],
        !totals.by_model.contains_key(name) ==> totals.model_totals(name).tokens == 0
            && totals.model_totals(name).cached_input_tokens == 0,
{
}

/// A use is recorded exactly if the three sums that it adds to stay within 64 bits.
pub proof fn law_use_is_refused_only_on_overflow(
    totals: Totals,
    name: Seq<char>,
    tokens: int,
    cached_input_tokens: int,
    day: i32,
)
    ensures
        totals.has_room(name, tokens, cached_input_tokens, day) <==> {
            let on_day = if totals.by_day.contains_key(day) {
                totals.by_day[day] as int
            } else {
                0
            };
            let (known, cached) = if totals.by_model.contains_key(name) {
                (totals.by_model[name].tokens, totals.by_model[name].cached_input_tokens)
            } else {
                (0, 0)
            };
            &&& -0x8000_0000_0000_0000 <= on_day + tokens <= 0x7fff_ffff_ffff_ffff
            &&& -0x8000_0000_0000_0000 <= known + tokens <= 0x7fff_ffff_ffff_ffff
            &&& -0x8000_0000_0000_0000 <= cached + cached_input_tokens <= 0x7fff_ffff_ffff_ffff
        },
{
}

/// A recorded use adds its tokens to its day and its model and its cached input to
/// the model, starting from nothing where they were not recorded before, and leaves
/// all else as it was.
pub proof fn law_use_adds_to_the_maps(
    totals: Totals,
    name: Seq<char>,
    tokens: int,
    cached_input_tokens: int,
    day: i32,
    after: Totals,
)
    requires
        totals.has_room(name, tokens, cached_input_tokens, day),
        after == totals.with_usage(name, tokens, cached_input_tokens, day),
    ensures
        after.by_day.dom() == totals.by_day.dom().insert(day),
        after.by_day[day] == tokens + if totals.by_day.contains_key(day) {
            totals.by_day[day] as int
        } else {
            0
        },
        forall|other: i32|
            other != day && #[trigger] totals.by_day.contains_key(other) ==> after.by_day[other]
                == totals.by_day[other],
        after.by_model.dom() == totals.by_model.dom().insert(name),
        totals.by_model.contains_key(name) ==> after.by_model[name].tokens
            == totals.by_model[name].tokens + tokens && after.by_model[name].cached_input_tokens
            == totals.by_model[name].cached_input_tokens + cached_input_tokens,
        !totals.by_model.contains_key(name) ==> after.by_model[name].tokens == tokens
            && after.by_model[name].cached_input_tokens == cached_input_tokens,
        forall|other: Seq<char>|
            other != name && #[trigger] totals.by_model.contains_key(other)
                ==> after.by_model[other] == totals.by_model[other],
{
}

/// A tally shows what its fields hold: the map of its days, and for each row of its
/// table, which is in ascending order of the names, the tokens and the cached input
/// tokens under the name of the row, and nothing under any other name.
pub proof fn law_tally_shows_its_fields(tally: UsageTally)
    requires
        tally.wf(),
    ensures
        tally@.by_day == tally.by_day@,
        forall|i: int|
            0 <= i < tally.by_model@.len() ==> {
                let row = #[trigger] tally.by_model@[i];
                &&& tally@.by_model.contains_key(row.model@)
                &&& tally@.by_model[row.model@].tokens == row.tokens
                &&& tally@.by_model[row.model@].cached_input_tokens == row.cached_input_tokens
            },
        forall|name: Seq<char>| #[trigger]
            tally@.by_model.contains_key(name) ==> exists|i: int|
                0 <= i < tally.by_model@.len() && (#[trigger] tally.by_model@[i]).model@ == name,
        forall|i: int, j: int|
            0 <= i < j < tally.by_model@.len() ==> text_precedes(
                (#[trigger] tally.by_model@[i]).model@,
                (#[trigger] tally.by_model@[j]).model@,
            ),
{
    lemma_model_map(tally.by_model@);
    assert forall|name: Seq<char>| #[trigger]
        tally@.by_model.contains_key(name) implies exists|i: int|
        0 <= i < tally.by_model@.len() && (#[trigger] tally.by_model@[i]).model@ == name by {
        let i = choose|i: int| names_model(tally.by_model@, i, name);
        assert(tally.by_model@[i].model@ == name);
    }
}

} // verus!
