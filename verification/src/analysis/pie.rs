//! Pie charts: the reduction of observations that name options.
use vstd::prelude::*;
use vstd::string::*;
use crate::analysis::{
    slices_of, white, EntryView, GraphicView, PieChartEntry, PieChartOption, Slices, TeamInfoEntry,
    TeamInfoGraphic,
};
use crate::data::{models_of, opt_model, EntryModel, MatchAbilityValue, MatchEntryValue, Payload};
use crate::number::{
    clamp, clamped, from_count, percent, percent_text, quotient, scaled, NO_DATA, SCALE,
};
use crate::str_map::{lemma_position_is, lemma_position_none, lookup};
use crate::tally::{lemma_sum_over_reordered, sum_over};

verus! {

/// How the text of a pie chart is chosen.
#[derive(Debug, Clone, Copy, PartialEq, Eq, Structural)]
pub enum PieText {
    /// The sort value as a percentage
    Share,
    /// The option that was observed most often, with its share where other
    /// options were observed too
    TopOption,
}

/// A table from the options of a metric to their weights. An option without
/// a weight is shown in no slice and does not count.
pub type Weights = Seq<(Seq<char>, Option<i64>)>;

/// The table that a list of options with weights stands for.
pub open spec fn weights_of(options: Seq<(String, Option<i64>)>) -> Weights {
    Seq::new(options.len(), |i: int| (options[i].0@, options[i].1))
}

/// The name of an ability value.
pub open spec fn ability_name(a: MatchAbilityValue) -> Seq<char> {
    match a {
        MatchAbilityValue::Nothing => "Nothing"@,
        MatchAbilityValue::Attempted => "Attempted"@,
        MatchAbilityValue::Succeeded => "Succeeded"@,
    }
}

/// The word for a yes/no value.
pub open spec fn yes_no(b: bool) -> Seq<char> {
    if b {
        "Yes"@
    } else {
        "No"@
    }
}

/// The option that an observation names, where it is of a kind that names
/// options.
pub open spec fn label_of(v: EntryModel) -> Option<Seq<char>> {
    match v.payload {
        Payload::Enum(s) => Some(s),
        Payload::Ability(a) => Some(ability_name(a)),
        Payload::Bool(b) => Some(yes_no(b)),
        _ => None,
    }
}

/// The weight of an option: that of the first row of the table that names
/// it, if that row has one.
pub open spec fn weight_of(options: Weights, label: Seq<char>) -> Option<i64> {
    match lookup(options, label) {
        Some(w) => w,
        None => None,
    }
}

/// The weight of an observation: that of the option it names.
pub open spec fn rating(options: Weights, v: EntryModel) -> Option<i64> {
    match label_of(v) {
        Some(l) => weight_of(options, l),
        None => None,
    }
}

/// The weight that each observation adds to the sum of weights.
pub open spec fn weigher(options: Weights) -> spec_fn(EntryModel) -> int {
    |v: EntryModel|
        match rating(options, v) {
            Some(w) => w as int,
            None => 0,
        }
}

/// One for each observation that has a weight.
pub open spec fn rater(options: Weights) -> spec_fn(EntryModel) -> int {
    |v: EntryModel|
        if rating(options, v) is Some {
            1int
        } else {
            0int
        }
}

/// One for each observation that names `label`.
pub open spec fn matcher(label: Seq<char>) -> spec_fn(EntryModel) -> int {
    |v: EntryModel|
        if label_of(v) == Some(label) {
            1int
        } else {
            0int
        }
}

/// The sort value of a pie chart: the average weight of the observations
/// that have a weight, or the sort value of no data where there is none.
pub open spec fn pie_sort_value(points: Seq<EntryModel>, options: Weights) -> int {
    if sum_over(points, rater(options)) == 0 {
        NO_DATA as int
    } else {
        quotient(sum_over(points, weigher(options)), sum_over(points, rater(options)))
    }
}

/// The slices of a pie chart: one for each option with a weight, as large as
/// the number of observations that name the option.
pub open spec fn pie_slices(points: Seq<EntryModel>, options: Weights) -> Slices
    decreases options.len(),
{
    if options.len() == 0 {
        Seq::empty()
    } else {
        let rest = pie_slices(points, options.drop_last());
        match options.last().1 {
            Some(_) => rest.push(
                (options.last().0, scaled(sum_over(points, matcher(options.last().0))) as i64),
            ),
            None => rest,
        }
    }
}

/// No slice has any size.
pub open spec fn all_zero(slices: Slices) -> bool {
    forall|i: int| 0 <= i < slices.len() ==> slices[i].1 == 0
}

/// The sizes of all slices together.
pub open spec fn slices_total(slices: Slices) -> int
    decreases slices.len(),
{
    if slices.len() == 0 {
        0
    } else {
        slices_total(slices.drop_last()) + slices.last().1
    }
}

/// How many slices are larger than nothing.
pub open spec fn slices_shown(slices: Slices) -> int
    decreases slices.len(),
{
    if slices.len() == 0 {
        0
    } else {
        slices_shown(slices.drop_last()) + if slices.last().1 > 0 {
            1int
        } else {
            0int
        }
    }
}

/// The slice at `i` is the largest, and the last of the largest.
pub open spec fn is_top(slices: Slices, i: int) -> bool {
    &&& 0 <= i < slices.len()
    &&& forall|j: int| 0 <= j < slices.len() ==> slices[j].1 <= slices[i].1
    &&& forall|j: int| i < j < slices.len() ==> slices[j].1 < slices[i].1
}

/// The text for the largest slice: its label alone where no other slice has
/// any size, else its share of all slices before its label.
pub open spec fn top_option_text(slices: Slices) -> Seq<char> {
    if slices_total(slices) == 0 || slices.len() == 0 {
        Seq::empty()
    } else {
        let top = slices[choose|i: int| is_top(slices, i)];
        if slices_shown(slices) == 1 {
            top.0
        } else {
            percent_text(clamped(quotient(top.1 * SCALE, slices_total(slices)))) + seq![' ']
                + top.0
        }
    }
}

/// The text of a pie chart.
pub open spec fn pie_text(slices: Slices, sort_value: int, style: PieText) -> Seq<char> {
    match style {
        PieText::Share => if all_zero(slices) {
            Seq::empty()
        } else {
            percent_text(sort_value)
        },
        PieText::TopOption => top_option_text(slices),
    }
}

/// What the pits say of a metric with options.
pub open spec fn pie_pit_value(pit: Option<EntryModel>) -> Option<Seq<char>> {
    match pit {
        Some(v) => match v.payload {
            Payload::Enum(s) => Some(s),
            Payload::Bool(b) => Some(yes_no(b)),
            _ => None,
        },
        None => None,
    }
}

/// The entry of a metric with options: a pie chart of how often each option
/// was observed.
pub open spec fn pie_entry(
    points: Seq<EntryModel>,
    pit: Option<EntryModel>,
    options: Weights,
    style: PieText,
) -> EntryView {
    let slices = pie_slices(points, options);
    let sort_value = pie_sort_value(points, options);
    EntryView {
        text: pie_text(slices, sort_value, style),
        pit_value: pie_pit_value(pit),
        sort_value: sort_value as i64,
        colour: white(),
        graphic: if all_zero(slices) {
            None
        } else {
            Some(GraphicView::PieChart(slices))
        },
    }
}

fn ability_text(a: MatchAbilityValue) -> (r: String)
    ensures
        r@ == ability_name(a),
{
    match a {
        MatchAbilityValue::Nothing => String::from_str("Nothing"),
        MatchAbilityValue::Attempted => String::from_str("Attempted"),
        MatchAbilityValue::Succeeded => String::from_str("Succeeded"),
    }
}

fn yes_no_text(b: bool) -> (r: String)
    ensures
        r@ == yes_no(b),
{
    if b {
        String::from_str("Yes")
    } else {
        String::from_str("No")
    }
}

fn label_text(v: &MatchEntryValue) -> (r: Option<String>)
    ensures
        crate::data::opt_text(r) == label_of(v@),
{
    match v {
        MatchEntryValue::Enum(e) => Some(e.value.clone()),
        MatchEntryValue::Ability(e) => Some(ability_text(e.value)),
        MatchEntryValue::Bool(e) => Some(yes_no_text(e.value)),
        _ => None,
    }
}

fn find_weight(options: &Vec<(String, Option<i64>)>, label: &str) -> (r: Option<i64>)
    ensures
        r == weight_of(weights_of(options@), label@),
{
    let mut i: usize = 0;
    while i < options.len()
        invariant
            i <= options@.len(),
            forall|j: int| 0 <= j < i ==> weights_of(options@)[j].0 != label@,
        decreases options@.len() - i,
    {
        if options[i].0.as_str().eq(label) {
            proof {
                lemma_position_is(weights_of(options@), label@, i as int);
            }
            return options[i].1;
        }
        i += 1;
    }
    proof {
        lemma_position_none(weights_of(options@), label@);
    }
    None
}

fn rate(options: &Vec<(String, Option<i64>)>, v: &MatchEntryValue) -> (r: Option<i64>)
    ensures
        r == rating(weights_of(options@), v@),
{
    match label_text(v) {
        Some(l) => find_weight(options, l.as_str()),
        None => None,
    }
}

fn names(v: &MatchEntryValue, label: &str) -> (r: bool)
    ensures
        r == (label_of(v@) == Some(label@)),
{
    match label_text(v) {
        Some(l) => l.as_str().eq(label),
        None => false,
    }
}

fn count_label(data_points: &Vec<&MatchEntryValue>, label: &str) -> (r: usize)
    ensures
        r == sum_over(models_of(data_points@), matcher(label@)),
{
    let ghost points = models_of(data_points@);
    let mut n: usize = 0;
    let mut i: usize = 0;
    assert(points.take(0) =~= Seq::empty());
    while i < data_points.len()
        invariant
            i <= data_points@.len(),
            points == models_of(data_points@),
            n <= i,
            n == sum_over(points.take(i as int), matcher(label@)),
        decreases data_points@.len() - i,
    {
        proof {
            let next = points.take(i + 1);
            assert(next.drop_last() =~= points.take(i as int));
            assert(next.last() == data_points@[i as int]@);
        }
        if names(data_points[i], label) {
            n += 1;
        }
        i += 1;
    }
    assert(points.take(i as int) =~= points);
    n
}

fn sort_value_of(data_points: &Vec<&MatchEntryValue>, options: &Vec<(String, Option<i64>)>) -> (r:
    i64)
    ensures
        r == pie_sort_value(models_of(data_points@), weights_of(options@)),
{
    let ghost table = weights_of(options@);
    let ghost points = models_of(data_points@);
    let mut count: u128 = 0;
    let mut sum: i128 = 0;
    let mut i: usize = 0;
    assert(points.take(0) =~= Seq::empty());
    assert(0 * (i64::MIN as int) == 0 && 0 * (i64::MAX as int) == 0);
    while i < data_points.len()
        invariant
            i <= data_points@.len(),
            table == weights_of(options@),
            points == models_of(data_points@),
            count <= i,
            count == sum_over(points.take(i as int), rater(table)),
            sum == sum_over(points.take(i as int), weigher(table)),
            count * (i64::MIN as int) <= sum <= count * (i64::MAX as int),
        decreases data_points@.len() - i,
    {
        proof {
            let next = points.take(i + 1);
            assert(next.drop_last() =~= points.take(i as int));
            assert(next.last() == data_points@[i as int]@);
            assert((count + 1) * (i64::MIN as int) == count * (i64::MIN as int) + (i64::MIN as int))
                by (nonlinear_arith);
            assert((count + 1) * (i64::MAX as int) == count * (i64::MAX as int) + (i64::MAX as int))
                by (nonlinear_arith);
            assert(count * (i64::MAX as int) <= usize::MAX * (i64::MAX as int))
                by (nonlinear_arith)
                requires
                    count <= usize::MAX,
            ;
            assert(count * (i64::MIN as int) >= usize::MAX * (i64::MIN as int))
                by (nonlinear_arith)
                requires
                    count <= usize::MAX,
            ;
        }
        match rate(options, data_points[i]) {
            Some(w) => {
                count = count + 1;
                sum = sum + w as i128;
            },
            None => {},
        }
        i += 1;
    }
    assert(points.take(i as int) =~= points);
    if count == 0 {
        NO_DATA
    } else {
        proof {
            let c = count as int;
            let t = sum as int;
            assert(quotient(t, c) <= i64::MAX && quotient(t, c) >= i64::MIN) by (nonlinear_arith)
                requires
                    c > 0,
                    c * (i64::MIN as int) <= t <= c * (i64::MAX as int),
                    quotient(t, c) == (if t >= 0 {
                        t / c
                    } else {
                        -((-t) / c)
                    }),
            ;
        }
        (sum / (count as i128)) as i64
    }
}

fn slices_for(data_points: &Vec<&MatchEntryValue>, options: &Vec<(String, Option<i64>)>) -> (r:
    Vec<PieChartOption>)
    ensures
        slices_of(r@) == pie_slices(models_of(data_points@), weights_of(options@)),
        forall|j: int| 0 <= j < r@.len() ==> r@[j].value >= 0,
{
    let mut slices: Vec<PieChartOption> = Vec::new();
    let mut i: usize = 0;
    assert(weights_of(options@).take(0) =~= Seq::empty());
    assert(slices_of(slices@) =~= Seq::empty());
    while i < options.len()
        invariant
            i <= options@.len(),
            slices_of(slices@) == pie_slices(
                models_of(data_points@),
                weights_of(options@).take(i as int),
            ),
            forall|j: int| 0 <= j < slices@.len() ==> slices@[j].value >= 0,
        decreases options@.len() - i,
    {
        let ghost before = slices_of(slices@);
        proof {
            let next = weights_of(options@).take(i + 1);
            assert(next.drop_last() =~= weights_of(options@).take(i as int));
            assert(next.last() == (options@[i as int].0@, options@[i as int].1));
        }
        match options[i].1 {
            Some(_) => {
                let value: i64 = from_count(count_label(data_points, options[i].0.as_str()));
                slices.push(PieChartOption { label: options[i].0.clone(), value });
                assert(slices_of(slices@) =~= before.push((options@[i as int].0@, value)));
            },
            None => {},
        }
        i += 1;
    }
    assert(weights_of(options@).take(i as int) =~= weights_of(options@));
    slices
}

fn no_slice_shown(slices: &Vec<PieChartOption>) -> (r: bool)
    ensures
        r == all_zero(slices_of(slices@)),
{
    let mut i: usize = 0;
    while i < slices.len()
        invariant
            i <= slices@.len(),
            forall|j: int| 0 <= j < i ==> slices_of(slices@)[j].1 == 0,
        decreases slices@.len() - i,
    {
        if slices[i].value != 0 {
            assert(slices_of(slices@)[i as int].1 != 0);
            return false;
        }
        i += 1;
    }
    true
}

proof fn lemma_slices_total_bound(slices: Slices)
    requires
        forall|j: int| 0 <= j < slices.len() ==> slices[j].1 >= 0,
    ensures
        0 <= slices_total(slices) <= slices.len() * (i64::MAX as int),
        0 <= slices_shown(slices) <= slices.len(),
    decreases slices.len(),
{
    if slices.len() > 0 {
        let front = slices.drop_last();
        assert forall|j: int| 0 <= j < front.len() implies front[j].1 >= 0 by {
            assert(front[j] == slices[j]);
        }
        lemma_slices_total_bound(front);
        assert((slices.len() - 1) * (i64::MAX as int) + (i64::MAX as int) == slices.len() * (
        i64::MAX as int)) by (nonlinear_arith);
    }
}

fn top_option(slices: &Vec<PieChartOption>) -> (r: String)
    requires
        forall|j: int| 0 <= j < slices@.len() ==> slices@[j].value >= 0,
    ensures
        r@ == top_option_text(slices_of(slices@)),
{
    let ghost all = slices_of(slices@);
    if slices.len() == 0 {
        return String::new();
    }
    let mut total: i128 = 0;
    let mut shown: usize = 0;
    let mut top: usize = 0;
    let mut i: usize = 0;
    assert(all.take(0) =~= Seq::empty());
    while i < slices.len()
        invariant
            i <= slices@.len(),
            slices@.len() > 0,
            all == slices_of(slices@),
            forall|j: int| 0 <= j < slices@.len() ==> slices@[j].value >= 0,
            total == slices_total(all.take(i as int)),
            shown == slices_shown(all.take(i as int)),
            top <= i,
            top < slices@.len(),
            forall|j: int| 0 <= j < i ==> all[j].1 <= all[top as int].1,
            forall|j: int| top < j < i ==> all[j].1 < all[top as int].1,
        decreases slices@.len() - i,
    {
        proof {
            let next = all.take(i + 1);
            assert(next.drop_last() =~= all.take(i as int));
            assert(next.last() == all[i as int]);
            lemma_slices_total_bound(next);
            assert(next.len() * (i64::MAX as int) <= usize::MAX * (i64::MAX as int))
                by (nonlinear_arith)
                requires
                    next.len() <= usize::MAX,
            ;
        }
        total = total + slices[i].value as i128;
        if slices[i].value > 0 {
            shown += 1;
        }
        if slices[i].value >= slices[top].value {
            top = i;
        }
        i += 1;
    }
    assert(all.take(i as int) =~= all);
    proof {
        lemma_slices_total_bound(all);
    }
    if total == 0 {
        return String::new();
    }
    proof {
        assert(is_top(all, top as int));
        let c = choose|c: int| is_top(all, c);
        assert(c == top);
    }
    if shown == 1 {
        slices[top].label.clone()
    } else {
        assert(all[top as int].1 * SCALE >= 0) by (nonlinear_arith)
            requires
                all[top as int].1 >= 0,
                SCALE == 1_000_000,
        ;
        assert(all[top as int].1 == slices@[top as int].value);
        let scaled_top: i128 = slices[top].value as i128 * SCALE as i128;
        assert(scaled_top == all[top as int].1 * SCALE);
        let ratio: i128 = scaled_top / total;
        assert(ratio == quotient(scaled_top as int, total as int));
        let share: i64 = clamp(ratio);
        assert(share == clamped(quotient(all[top as int].1 * SCALE, slices_total(all))));
        let mut out = percent(share);
        out.push(' ');
        out.append(slices[top].label.as_str());
        assert(out@ =~= top_option_text(all));
        out
    }
}

fn pit_text(pit_data_point: Option<&MatchEntryValue>) -> (r: Option<String>)
    ensures
        crate::data::opt_text(r) == pie_pit_value(
            match pit_data_point {
                Some(v) => Some(v@),
                None => None,
            },
        ),
{
    match pit_data_point {
        Some(MatchEntryValue::Enum(e)) => Some(e.value.clone()),
        Some(MatchEntryValue::Bool(b)) => Some(yes_no_text(b.value)),
        _ => None,
    }
}

/// Reduces the observations of a metric with options to a pie chart.
///
/// Each observation names an option. The chart has one slice for each option
/// with a weight, as large as the number of observations that name it; the
/// sort value is the average weight of the observations whose option has a
/// weight, and the sort value of no data where there is no such observation.
pub fn get_pie_chart(
    data_points: &Vec<&MatchEntryValue>,
    pit_data_point: Option<&MatchEntryValue>,
    option_values: &Vec<(String, Option<i64>)>,
    style: PieText,
) -> (r: TeamInfoEntry)
    ensures
        r@ == pie_entry(
            models_of(data_points@),
            opt_model(pit_data_point),
            weights_of(option_values@),
            style,
        ),
{
    let sort_value = sort_value_of(data_points, option_values);
    let options = slices_for(data_points, option_values);
    let empty = no_slice_shown(&options);
    let text = match style {
        PieText::Share => if empty {
            String::new()
        } else {
            percent(sort_value)
        },
        PieText::TopOption => top_option(&options),
    };
    let colour: [u8; 3] = [255, 255, 255];
    assert(colour@ =~= white());
    TeamInfoEntry {
        text,
        pit_value: pit_text(pit_data_point),
        sort_value,
        colour,
        graphic: if empty {
            None
        } else {
            Some(TeamInfoGraphic::PieChart(PieChartEntry { options }))
        },
    }
}

/// The sort value of a pie chart does not depend on the order in which the
/// observations come, and neither do its slices.
pub proof fn lemma_pie_reordered(a: Seq<EntryModel>, b: Seq<EntryModel>, options: Weights)
    requires
        a.to_multiset() == b.to_multiset(),
    ensures
        pie_sort_value(a, options) == pie_sort_value(b, options),
        pie_slices(a, options) == pie_slices(b, options),
        forall|pit: Option<EntryModel>, style: PieText|
            pie_entry(a, pit, options, style) == pie_entry(b, pit, options, style),
    decreases options.len(),
{
    lemma_sum_over_reordered(a, b, rater(options));
    lemma_sum_over_reordered(a, b, weigher(options));
    if options.len() > 0 {
        lemma_pie_reordered(a, b, options.drop_last());
        lemma_sum_over_reordered(a, b, matcher(options.last().0));
    }
}

/// A pie chart without an observation that has a weight sorts as no data.
pub proof fn lemma_no_rated_observation(
    points: Seq<EntryModel>,
    pit: Option<EntryModel>,
    options: Weights,
    style: PieText,
)
    requires
        forall|i: int| 0 <= i < points.len() ==> rating(options, #[trigger] points[i]) is None,
    ensures
        pie_entry(points, pit, options, style).sort_value == NO_DATA,
    decreases points.len(),
{
    lemma_nothing_rated(points, options);
}

proof fn lemma_nothing_rated(points: Seq<EntryModel>, options: Weights)
    requires
        forall|i: int| 0 <= i < points.len() ==> rating(options, #[trigger] points[i]) is None,
    ensures
        sum_over(points, rater(options)) == 0,
    decreases points.len(),
{
    if points.len() > 0 {
        let front = points.drop_last();
        assert forall|i: int| 0 <= i < front.len() implies rating(options, #[trigger] front[i])
            is None by {
            assert(front[i] == points[i]);
        }
        lemma_nothing_rated(front, options);
        assert(points.last() == points[points.len() - 1]);
    }
}

} // verus!
