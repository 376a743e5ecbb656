//! The reduction of the observations of one metric to one entry, by the kind
//! of the metric.
use vstd::prelude::*;
use vstd::string::*;
use crate::analysis::{
    white, EntryView, GraphicView, ImagesEntry, MultiTextEntry, TeamInfoEntry, TeamInfoGraphic,
    TeamInfoNumericEntry,
};
use crate::analysis::pie::{get_pie_chart, pie_entry, weights_of, PieText, Weights};
use crate::analysis::statistics::statistics_entry;
use crate::config::GameConfigs;
use crate::data::{
    image_list, models_of, opt_model, EntryModel, ImageEntryItem, MatchEntryValue, Payload,
};
use crate::number::{
    average, clamp, clamped, from_count, from_i32, is_greatest, is_least, isqrt, magnitude,
    maximum, mean, minimum, root, scaled, shortest, shortest_text, sign_text, two_places,
    two_places_text, NO_DATA, NO_STATISTICS, NOT_SHOWN, SCALE, greatest, least,
};
use crate::tally::sum_over;
use crate::text::{decimal, push_decimal, texts};

verus! {

/// The square root of a number in millionths, where it has one.
pub open spec fn root_of(v: int) -> Option<i64> {
    if v < 0 {
        None
    } else {
        Some(root(v * SCALE) as i64)
    }
}

/// The entry that stands for a list of numbers: their average, with the
/// root of the average and the least and greatest of them.
pub open spec fn number_view(values: Seq<i64>, is_time: bool) -> EntryView {
    EntryView {
        text: two_places_text(average(values)),
        pit_value: None,
        sort_value: average(values) as i64,
        colour: white(),
        graphic: Some(
            GraphicView::Numeric(
                TeamInfoNumericEntry {
                    number: average(values) as i64,
                    collected_std_dev: root_of(average(values)),
                    collected_min_max: Some((least(values), greatest(values))),
                    compare_other_numbers: None,
                    is_time,
                },
            ),
        ),
    }
}

pub(crate) fn white_colour() -> (c: [u8; 3])
    ensures
        c@ == white(),
{
    let c: [u8; 3] = [255, 255, 255];
    assert(c@ =~= white());
    c
}

/// The entry of a list of numbers, which holds a number at least.
pub fn number_entry(numbers: Vec<i64>, is_time: bool) -> (r: TeamInfoEntry)
    requires
        numbers@.len() > 0,
    ensures
        r@ == number_view(numbers@, is_time),
{
    let value: i64 = mean(&numbers);
    let low: i64 = minimum(&numbers);
    let high: i64 = maximum(&numbers);
    let std_dev: Option<i64> = if value < 0 {
        None
    } else {
        let root: u64 = isqrt(value as u128 * SCALE as u128);
        proof {
            crate::number::lemma_root_is(value * SCALE, root as int);
            assert(root * root <= i64::MAX * 1_000_000) by (nonlinear_arith)
                requires
                    root * root <= value * SCALE,
                    value <= i64::MAX,
                    SCALE == 1_000_000,
            ;
            assert(root <= i64::MAX) by (nonlinear_arith)
                requires
                    root * root <= i64::MAX * 1_000_000,
                    root >= 0,
            ;
        }
        Some(root as i64)
    };
    TeamInfoEntry {
        text: two_places(value),
        pit_value: None,
        sort_value: value,
        colour: white_colour(),
        graphic: Some(
            TeamInfoGraphic::Numeric(
                TeamInfoNumericEntry {
                    number: value,
                    collected_std_dev: std_dev,
                    collected_min_max: Some((low, high)),
                    compare_other_numbers: None,
                    is_time,
                },
            ),
        ),
    }
}

/// The entry of a metric of which nothing was observed.
pub open spec fn blank_view(pit_value: Option<Seq<char>>) -> EntryView {
    EntryView {
        text: Seq::empty(),
        pit_value,
        sort_value: NO_DATA,
        colour: white(),
        graphic: None,
    }
}

/// The number that an observation gives for a timer or for a counter.
pub open spec fn number_of(v: EntryModel, is_time: bool) -> Option<i64> {
    match v.payload {
        Payload::Timer(t) => if is_time {
            Some(t)
        } else {
            None
        },
        Payload::Counter(c) => if is_time {
            None
        } else {
            Some((c * SCALE) as i64)
        },
        _ => None,
    }
}

/// The numbers that the observations give, in their order.
pub open spec fn numbers_of(points: Seq<EntryModel>, is_time: bool) -> Seq<i64>
    decreases points.len(),
{
    if points.len() == 0 {
        Seq::empty()
    } else {
        match number_of(points.last(), is_time) {
            Some(n) => numbers_of(points.drop_last(), is_time).push(n),
            None => numbers_of(points.drop_last(), is_time),
        }
    }
}

/// What the pits say of a timer or of a counter.
pub open spec fn number_pit_value(pit: Option<EntryModel>, is_time: bool) -> Option<Seq<char>> {
    match pit {
        Some(v) => match v.payload {
            Payload::Timer(t) => if is_time {
                Some(shortest_text(t as int) + seq!['s'])
            } else {
                None
            },
            Payload::Counter(c) => if is_time {
                None
            } else {
                Some(sign_text(c as int) + decimal(magnitude(c as int)))
            },
            _ => None,
        },
        None => None,
    }
}

/// The entry of a timer or of a counter: the average of what was observed,
/// or a blank entry with the sort value of no data where nothing was.
pub open spec fn numeric_entry(points: Seq<EntryModel>, pit: Option<EntryModel>, is_time: bool) -> EntryView {
    let numbers = numbers_of(points, is_time);
    if numbers.len() == 0 {
        blank_view(number_pit_value(pit, is_time))
    } else {
        number_view(numbers, is_time)
    }
}

fn number_in(v: &MatchEntryValue, is_time: bool) -> (r: Option<i64>)
    ensures
        r == number_of(v@, is_time),
{
    match v {
        MatchEntryValue::Timer(t) => if is_time {
            Some(t.time_micros)
        } else {
            None
        },
        MatchEntryValue::Counter(c) => if is_time {
            None
        } else {
            Some(from_i32(c.count))
        },
        _ => None,
    }
}

fn number_pit_text(pit_data_point: Option<&MatchEntryValue>, is_time: bool) -> (r: Option<String>)
    ensures
        crate::data::opt_text(r) == number_pit_value(opt_model(pit_data_point), is_time),
{
    match pit_data_point {
        Some(MatchEntryValue::Timer(t)) => if is_time {
            let mut out = shortest(t.time_micros);
            out.push('s');
            Some(out)
        } else {
            None
        },
        Some(MatchEntryValue::Counter(c)) => if is_time {
            None
        } else {
            let mut out = String::new();
            if c.count < 0 {
                out.push('-');
            }
            let size: u128 = if c.count < 0 {
                (-(c.count as i64)) as u128
            } else {
                c.count as u128
            };
            push_decimal(&mut out, size);
            assert(out@ =~= sign_text(c.count as int) + decimal(magnitude(c.count as int)));
            Some(out)
        },
        _ => None,
    }
}

/// Reduces the observations of a timer or of a counter to their average.
pub fn get_numeric_entry(
    data_points: &Vec<&MatchEntryValue>,
    pit_data_point: Option<&MatchEntryValue>,
    is_time: bool,
) -> (r: TeamInfoEntry)
    ensures
        r@ == numeric_entry(models_of(data_points@), opt_model(pit_data_point), is_time),
{
    let ghost points = models_of(data_points@);
    let mut numbers: Vec<i64> = Vec::new();
    let mut i: usize = 0;
    assert(points.take(0) =~= Seq::empty());
    while i < data_points.len()
        invariant
            i <= data_points@.len(),
            points == models_of(data_points@),
            numbers@ == numbers_of(points.take(i as int), is_time),
        decreases data_points@.len() - i,
    {
        proof {
            let next = points.take(i + 1);
            assert(next.drop_last() =~= points.take(i as int));
            assert(next.last() == data_points@[i as int]@);
        }
        match number_in(data_points[i], is_time) {
            Some(n) => {
                numbers.push(n);
            },
            None => {},
        }
        i += 1;
    }
    assert(points.take(i as int) =~= points);
    if numbers.len() == 0 {
        let r = TeamInfoEntry {
            text: String::new(),
            pit_value: number_pit_text(pit_data_point, is_time),
            sort_value: NO_DATA,
            colour: white_colour(),
            graphic: None,
        };
        assert(r@.text =~= Seq::<char>::empty());
        r
    } else {
        number_entry(numbers, is_time)
    }
}

/// The observations with what the pits say behind them.
pub open spec fn with_pit(points: Seq<EntryModel>, pit: Option<EntryModel>) -> Seq<EntryModel> {
    match pit {
        Some(v) => points.push(v),
        None => points,
    }
}

/// The text of an observation, where it is a text.
pub open spec fn text_of(v: EntryModel) -> Option<Seq<char>> {
    match v.payload {
        Payload::TextEntry(t) => Some(t),
        _ => None,
    }
}

/// The texts among the observations, in their order.
pub open spec fn texts_of(points: Seq<EntryModel>) -> Seq<Seq<char>>
    decreases points.len(),
{
    if points.len() == 0 {
        Seq::empty()
    } else {
        match text_of(points.last()) {
            Some(t) => texts_of(points.drop_last()).push(t),
            None => texts_of(points.drop_last()),
        }
    }
}

/// The sentiment score that each text adds.
pub open spec fn feeling() -> spec_fn(EntryModel) -> int {
    |v: EntryModel|
        if text_of(v) is Some {
            v.sentiment as int
        } else {
            0int
        }
}

/// The entry of a text metric: every text that was submitted, in the pits
/// too, with the sum of their sentiment scores, by which the entry is sorted.
pub open spec fn text_entry(points: Seq<EntryModel>, pit: Option<EntryModel>) -> EntryView {
    let all = with_pit(points, pit);
    let strings = texts_of(all);
    let sentiment = clamped(sum_over(all, feeling())) as i64;
    EntryView {
        text: if strings.len() == 0 {
            Seq::empty()
        } else {
            strings[0]
        },
        pit_value: None,
        sort_value: if strings.len() == 0 {
            NO_DATA
        } else {
            sentiment
        },
        colour: white(),
        graphic: Some(GraphicView::MultiText { strings, sentiment }),
    }
}

/// The images of an observation, where it holds images.
pub open spec fn images_in(v: EntryModel) -> Seq<(Seq<char>, Seq<char>)> {
    match v.payload {
        Payload::Image(list) => list,
        _ => Seq::empty(),
    }
}

/// The images of all observations, in their order.
pub open spec fn images_of(points: Seq<EntryModel>) -> Seq<(Seq<char>, Seq<char>)>
    decreases points.len(),
{
    if points.len() == 0 {
        Seq::empty()
    } else {
        images_of(points.drop_last()) + images_in(points.last())
    }
}

/// How a number of images is told.
pub open spec fn image_count_text(n: nat) -> Seq<char> {
    if n == 0 {
        Seq::empty()
    } else if n == 1 {
        "1 image"@
    } else {
        decimal(n) + " images"@
    }
}

/// The entry of an image metric: every image that was submitted, in the
/// pits too. It is sorted by the number of images, negated, so that more
/// images come first.
pub open spec fn image_entry(points: Seq<EntryModel>, pit: Option<EntryModel>) -> EntryView {
    let images = images_of(with_pit(points, pit));
    EntryView {
        text: image_count_text(images.len()),
        pit_value: None,
        sort_value: (-scaled(images.len() as int)) as i64,
        colour: white(),
        graphic: Some(GraphicView::Images(images)),
    }
}

fn with_pit_point<'a>(
    data_points: &Vec<&'a MatchEntryValue>,
    pit_data_point: Option<&'a MatchEntryValue>,
) -> (r: Vec<&'a MatchEntryValue>)
    ensures
        models_of(r@) == with_pit(models_of(data_points@), opt_model(pit_data_point)),
{
    let mut all: Vec<&'a MatchEntryValue> = Vec::new();
    let mut i: usize = 0;
    while i < data_points.len()
        invariant
            i <= data_points@.len(),
            all@ == data_points@.take(i as int),
        decreases data_points@.len() - i,
    {
        all.push(data_points[i]);
        assert(all@ =~= data_points@.take(i + 1));
        i += 1;
    }
    assert(all@ =~= data_points@);
    match pit_data_point {
        Some(v) => {
            all.push(v);
            assert(models_of(all@) =~= models_of(data_points@).push(v@));
        },
        None => {},
    }
    all
}

/// Reduces the observations of a text metric to the list of the texts.
pub fn get_text_entry(data_points: &Vec<&MatchEntryValue>, pit_data_point: Option<&MatchEntryValue>) -> (r:
    TeamInfoEntry)
    ensures
        r@ == text_entry(models_of(data_points@), opt_model(pit_data_point)),
{
    let all = with_pit_point(data_points, pit_data_point);
    let ghost points = models_of(all@);
    let mut strings: Vec<String> = Vec::new();
    let mut sum: i128 = 0;
    let mut i: usize = 0;
    assert(points.take(0) =~= Seq::empty());
    assert(texts(strings@) =~= Seq::empty());
    while i < all.len()
        invariant
            i <= all@.len(),
            points == models_of(all@),
            texts(strings@) == texts_of(points.take(i as int)),
            sum == sum_over(points.take(i as int), feeling()),
            i * (i64::MIN as int) <= sum <= i * (i64::MAX as int),
        decreases all@.len() - i,
    {
        let ghost before = texts(strings@);
        proof {
            let next = points.take(i + 1);
            assert(next.drop_last() =~= points.take(i as int));
            assert(next.last() == all@[i as int]@);
            assert((i + 1) * (i64::MIN as int) == i * (i64::MIN as int) + (i64::MIN as int))
                by (nonlinear_arith);
            assert((i + 1) * (i64::MAX as int) == i * (i64::MAX as int) + (i64::MAX as int))
                by (nonlinear_arith);
            assert(i * (i64::MAX as int) <= usize::MAX * (i64::MAX as int)) by (nonlinear_arith)
                requires
                    i <= usize::MAX,
            ;
            assert(i * (i64::MIN as int) >= usize::MAX * (i64::MIN as int)) by (nonlinear_arith)
                requires
                    i <= usize::MAX,
            ;
        }
        match all[i] {
            MatchEntryValue::TextEntry(te) => {
                strings.push(te.text.clone());
                sum = sum + te.sentiment as i128;
                assert(texts(strings@) =~= before.push(te.text@));
            },
            _ => {},
        }
        i += 1;
    }
    assert(points.take(i as int) =~= points);
    let sentiment: i64 = clamp(sum);
    let text = if strings.len() == 0 {
        String::new()
    } else {
        strings[0].clone()
    };
    let sort_value: i64 = if strings.len() == 0 {
        NO_DATA
    } else {
        sentiment
    };
    let r = TeamInfoEntry {
        text,
        pit_value: None,
        sort_value,
        colour: white_colour(),
        graphic: Some(TeamInfoGraphic::MultiText(MultiTextEntry { sentiment, strings })),
    };
    assert(r@.text =~= text_entry(models_of(data_points@), opt_model(pit_data_point)).text);
    r
}

fn image_count(n: usize) -> (r: String)
    ensures
        r@ == image_count_text(n as nat),
{
    if n == 0 {
        String::new()
    } else if n == 1 {
        String::from_str("1 image")
    } else {
        let mut out = String::new();
        push_decimal(&mut out, n as u128);
        out.append(" images");
        assert(out@ =~= decimal(n as nat) + " images"@);
        out
    }
}

/// Reduces the observations of an image metric to the list of the images.
pub fn get_image_entry(data_points: &Vec<&MatchEntryValue>, pit_data_point: Option<&MatchEntryValue>) -> (r:
    TeamInfoEntry)
    ensures
        r@ == image_entry(models_of(data_points@), opt_model(pit_data_point)),
{
    let all = with_pit_point(data_points, pit_data_point);
    let ghost points = models_of(all@);
    let mut images: Vec<ImageEntryItem> = Vec::new();
    let mut i: usize = 0;
    assert(points.take(0) =~= Seq::empty());
    assert(image_list(images@) =~= Seq::empty());
    while i < all.len()
        invariant
            i <= all@.len(),
            points == models_of(all@),
            image_list(images@) == images_of(points.take(i as int)),
        decreases all@.len() - i,
    {
        proof {
            let next = points.take(i + 1);
            assert(next.drop_last() =~= points.take(i as int));
            assert(next.last() == all@[i as int]@);
        }
        match all[i] {
            MatchEntryValue::Image(im) => {
                let ghost before = image_list(images@);
                let mut j: usize = 0;
                while j < im.images.len()
                    invariant
                        j <= im.images@.len(),
                        image_list(images@) == before + image_list(im.images@).take(j as int),
                    decreases im.images@.len() - j,
                {
                    let ghost so_far = image_list(images@);
                    images.push(
                        ImageEntryItem {
                            image_id: im.images[j].image_id.clone(),
                            image_mime: im.images[j].image_mime.clone(),
                        },
                    );
                    assert(image_list(images@) =~= so_far.push(image_list(im.images@)[j as int]));
                    assert(image_list(im.images@).take(j + 1) =~= image_list(im.images@).take(
                        j as int,
                    ).push(image_list(im.images@)[j as int]));
                    j += 1;
                }
                assert(image_list(im.images@).take(j as int) =~= image_list(im.images@));
            },
            _ => {
                assert(image_list(images@) + Seq::<(Seq<char>, Seq<char>)>::empty() =~= image_list(
                    images@,
                ));
            },
        }
        i += 1;
    }
    assert(points.take(i as int) =~= points);
    let count: usize = images.len();
    TeamInfoEntry {
        text: image_count(count),
        pit_value: None,
        sort_value: -from_count(count),
        colour: white_colour(),
        graphic: Some(TeamInfoGraphic::Images(ImagesEntry { images })),
    }
}

/// The kind of a metric, which decides how its observations are reduced.
#[derive(Debug, Clone, PartialEq)]
pub enum MetricKind {
    Ability,
    /// One of the options, in the order of the catalogue
    Enum(Vec<String>),
    Bool,
    Timer,
    Counter,
    TextEntry,
    Image,
    /// A metric that the catalogue does not know
    Unknown,
}

/// The kind of a metric as contracts see it.
pub enum KindView {
    Ability,
    Enum(Seq<Seq<char>>),
    Bool,
    Timer,
    Counter,
    TextEntry,
    Image,
    Unknown,
}

impl View for MetricKind {
    type V = KindView;

    open spec fn view(&self) -> KindView {
        match *self {
            MetricKind::Ability => KindView::Ability,
            MetricKind::Enum(options) => KindView::Enum(texts(options@)),
            MetricKind::Bool => KindView::Bool,
            MetricKind::Timer => KindView::Timer,
            MetricKind::Counter => KindView::Counter,
            MetricKind::TextEntry => KindView::TextEntry,
            MetricKind::Image => KindView::Image,
            MetricKind::Unknown => KindView::Unknown,
        }
    }
}

/// The weights of the options of an ability: an attempt weighs nothing, a
/// success weighs one, and no attempt does not count.
pub open spec fn ability_weights() -> Weights {
    seq![("Nothing"@, None), ("Attempted"@, Some(0i64)), ("Succeeded"@, Some(SCALE))]
}

/// The weights of the answers to a yes/no question.
pub open spec fn bool_weights() -> Weights {
    seq![("No"@, Some(0i64)), ("Yes"@, Some(SCALE))]
}

/// The weights of the options of a selection: each option weighs its place
/// among the options, as a share of their number.
pub open spec fn enum_weights(options: Seq<Seq<char>>) -> Weights {
    Seq::new(
        options.len(),
        |i: int| (options[i], Some(((i * SCALE) / (options.len() as int)) as i64)),
    )
}

/// The entry of a metric that nothing is known of: its id, echoed.
pub open spec fn unshown_view(metric: Seq<char>) -> EntryView {
    EntryView {
        text: metric,
        pit_value: None,
        sort_value: NOT_SHOWN,
        colour: white(),
        graphic: None,
    }
}

/// The entry that the observations of a metric of some kind are reduced to.
pub open spec fn kind_entry(
    kind: KindView,
    metric: Seq<char>,
    points: Seq<EntryModel>,
    pit: Option<EntryModel>,
) -> EntryView {
    match kind {
        KindView::Ability => pie_entry(points, pit, ability_weights(), PieText::Share),
        KindView::Enum(options) => pie_entry(points, pit, enum_weights(options), PieText::TopOption),
        KindView::Bool => pie_entry(points, pit, bool_weights(), PieText::Share),
        KindView::Timer => numeric_entry(points, pit, true),
        KindView::Counter => numeric_entry(points, pit, false),
        KindView::TextEntry => text_entry(points, pit),
        KindView::Image => image_entry(points, pit),
        KindView::Unknown => unshown_view(metric),
    }
}

fn weights_for_ability() -> (r: Vec<(String, Option<i64>)>)
    ensures
        weights_of(r@) == ability_weights(),
{
    let mut r: Vec<(String, Option<i64>)> = Vec::new();
    r.push((String::from_str("Nothing"), None));
    r.push((String::from_str("Attempted"), Some(0)));
    r.push((String::from_str("Succeeded"), Some(SCALE)));
    assert(weights_of(r@) =~= ability_weights());
    r
}

fn weights_for_bool() -> (r: Vec<(String, Option<i64>)>)
    ensures
        weights_of(r@) == bool_weights(),
{
    let mut r: Vec<(String, Option<i64>)> = Vec::new();
    r.push((String::from_str("No"), Some(0)));
    r.push((String::from_str("Yes"), Some(SCALE)));
    assert(weights_of(r@) =~= bool_weights());
    r
}

fn weights_for_enum(options: &Vec<String>) -> (r: Vec<(String, Option<i64>)>)
    ensures
        weights_of(r@) == enum_weights(texts(options@)),
{
    let n: usize = options.len();
    let mut r: Vec<(String, Option<i64>)> = Vec::new();
    let mut i: usize = 0;
    while i < n
        invariant
            i <= n,
            n == options@.len(),
            r@.len() == i,
            forall|j: int| 0 <= j < i ==> weights_of(r@)[j] == enum_weights(texts(options@))[j],
        decreases n - i,
    {
        assert(i * SCALE <= usize::MAX * 1_000_000) by (nonlinear_arith)
            requires
                i <= usize::MAX,
                SCALE == 1_000_000,
        ;
        assert((i * SCALE) / (n as int) <= i * SCALE) by (nonlinear_arith)
            requires
                i >= 0,
                n > 0,
                SCALE == 1_000_000,
        ;
        assert(0 <= (i * SCALE) / (n as int) < SCALE) by (nonlinear_arith)
            requires
                0 <= i < n,
                SCALE == 1_000_000,
        ;
        let weight: i64 = clamp(((i as i128) * (SCALE as i128)) / (n as i128));
        assert(weight == (i * SCALE) / (n as int));
        let ghost before = weights_of(r@);
        r.push((options[i].clone(), Some(weight)));
        assert(weights_of(r@) =~= before.push((options@[i as int]@, Some(weight))));
        assert(enum_weights(texts(options@))[i as int] == (options@[i as int]@, Some(weight)));
        i += 1;
    }
    assert(weights_of(r@) =~= enum_weights(texts(options@)));
    r
}

pub(crate) fn unshown_entry(metric: &str) -> (r: TeamInfoEntry)
    ensures
        r@ == unshown_view(metric@),
{
    TeamInfoEntry {
        text: String::from_str(metric),
        pit_value: None,
        sort_value: NOT_SHOWN,
        colour: white_colour(),
        graphic: None,
    }
}

/// Reduces the observations of a metric of the given kind to one entry.
pub fn reduce(
    kind: &MetricKind,
    metric: &str,
    data_points: &Vec<&MatchEntryValue>,
    pit_data_point: Option<&MatchEntryValue>,
) -> (r: TeamInfoEntry)
    ensures
        r@ == kind_entry(kind@, metric@, models_of(data_points@), opt_model(pit_data_point)),
{
    match kind {
        MetricKind::Ability => get_pie_chart(
            data_points,
            pit_data_point,
            &weights_for_ability(),
            PieText::Share,
        ),
        MetricKind::Enum(options) => get_pie_chart(
            data_points,
            pit_data_point,
            &weights_for_enum(options),
            PieText::TopOption,
        ),
        MetricKind::Bool => get_pie_chart(
            data_points,
            pit_data_point,
            &weights_for_bool(),
            PieText::Share,
        ),
        MetricKind::Timer => get_numeric_entry(data_points, pit_data_point, true),
        MetricKind::Counter => get_numeric_entry(data_points, pit_data_point, false),
        MetricKind::TextEntry => get_text_entry(data_points, pit_data_point),
        MetricKind::Image => get_image_entry(data_points, pit_data_point),
        MetricKind::Unknown => unshown_entry(metric),
    }
}

/// A metric of which nothing was observed sorts as no data, whatever its
/// kind, but for an image metric, which sorts by its number of images: none.
/// A metric of the statistics service sorts as missing statistics where the
/// team has no statistics.
pub proof fn lemma_no_observations(config: GameConfigs, kind: KindView, metric: Seq<char>)
    requires
        !(kind is Unknown),
    ensures
        !(kind is Image) ==> kind_entry(kind, metric, Seq::empty(), None).sort_value == NO_DATA,
        kind is Image ==> kind_entry(kind, metric, Seq::empty(), None).sort_value == 0,
        forall|stat: Seq<char>| statistics_entry(None, stat, metric).sort_value == NO_STATISTICS,
{
    let none = Seq::<EntryModel>::empty();
    assert(with_pit(none, None) =~= none);
    assert(texts_of(none) =~= Seq::empty());
    assert(images_of(none) =~= Seq::empty());
    assert(numbers_of(none, true) =~= Seq::empty());
    assert(numbers_of(none, false) =~= Seq::empty());
}

} // verus!
