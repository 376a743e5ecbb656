//! The fields that a scout is asked for, as the catalogue of a game gives
//! them for one kind of data entry.
use vstd::prelude::*;
use vstd::string::*;
use crate::config::{
    AbilityMetric, BoolMetric, CollectedMetric, CollectedMetricType, CollectionOption,
    CounterMetric, EnumMetric, GameConfig, ImageMetric, MetricCategory, TextEntryMetric,
    TimerMetric,
};
use crate::order::{arrange, arranged};
use crate::str_map::{lemma_with_entry_mapped, mapped, with_entry, StrMap};
use crate::text::{clone_strings, texts};

verus! {

/// The type of data entry
#[derive(Debug, Clone, Copy, PartialEq, Eq, Structural)]
pub enum EntryType {
    /// Data entered by the drive team
    DriveTeam,
    /// Data entered when scouting a match
    Match,
    /// Data entered when pit scouting
    Pit,
}

/// The list of entries to display to the user to collect and then send back
#[derive(Debug, Clone, PartialEq)]
pub struct MatchEntryFields {
    /// List of pages to display, pages can be swiped between
    pub pages: Vec<MatchEntryPage>,
    /// The entries by id, which the pages refer to
    pub entries: StrMap<MatchEntry>,
}

/// A page of fields.
#[derive(Debug, Clone, PartialEq)]
pub struct MatchEntryPage {
    /// Title of this page
    pub title: String,
    /// Description of this page
    pub description: Option<String>,
    /// The entry ids to display in order on this page
    pub layout: Vec<String>,
}

/// A field.
#[derive(Debug, Clone, PartialEq)]
pub struct MatchEntry {
    /// Human readable name/title of the entry
    pub title: String,
    /// Human readable description of the entry
    pub description: String,
    /// The page that holds this metric
    pub page: String,
    /// The type of entry along with any parameters (if present)
    pub entry: MatchEntryType,
}

/// The type of a field, with its parameters.
#[derive(Debug, Clone, PartialEq)]
pub enum MatchEntryType {
    /// Whether the robot has the ability to do something
    Ability(AbilityMetric),
    /// One of a selection of options
    Enum(EnumMetric),
    /// A yes/no question
    Bool(BoolMetric),
    /// An amount of things
    Counter(CounterMetric),
    /// A text entry field, either single line or multi lined
    TextEntry(TextEntryMetric),
    /// A picture field, for example for pit scouting robot pictures
    Image(ImageMetric),
    /// An amount of real-world time
    Timer(TimerMetric),
}

/// The kind of a field as contracts see it.
pub enum FieldKind {
    Ability(Seq<Seq<char>>),
    Enum(Seq<Seq<char>>),
    Bool,
    Counter(CounterMetric),
    TextEntry(TextEntryMetric),
    Image(ImageMetric),
    Timer,
}

impl View for MatchEntryType {
    type V = FieldKind;

    open spec fn view(&self) -> FieldKind {
        match *self {
            MatchEntryType::Ability(a) => FieldKind::Ability(texts(a.implies@)),
            MatchEntryType::Enum(e) => FieldKind::Enum(texts(e.options@)),
            MatchEntryType::Bool(_) => FieldKind::Bool,
            MatchEntryType::Counter(c) => FieldKind::Counter(c),
            MatchEntryType::TextEntry(t) => FieldKind::TextEntry(t),
            MatchEntryType::Image(i) => FieldKind::Image(i),
            MatchEntryType::Timer(_) => FieldKind::Timer,
        }
    }
}

/// A field as contracts see it.
pub struct FieldView {
    pub title: Seq<char>,
    pub description: Seq<char>,
    pub page: Seq<char>,
    pub kind: FieldKind,
}

impl View for MatchEntry {
    type V = FieldView;

    open spec fn view(&self) -> FieldView {
        FieldView {
            title: self.title@,
            description: self.description@,
            page: self.page@,
            kind: self.entry@,
        }
    }
}

/// A page as contracts see it.
pub struct PageView {
    pub title: Seq<char>,
    pub description: Option<Seq<char>>,
    pub layout: Seq<Seq<char>>,
}

impl View for MatchEntryPage {
    type V = PageView;

    open spec fn view(&self) -> PageView {
        PageView {
            title: self.title@,
            description: crate::data::opt_text(self.description),
            layout: texts(self.layout@),
        }
    }
}

/// The kind of the field that a metric is entered in: that of the metric,
/// but that an ability is a yes/no question in the pits. A metric of the
/// statistics service is entered nowhere.
pub open spec fn field_kind(value: CollectedMetricType, entry_type: EntryType) -> Option<FieldKind> {
    match value {
        CollectedMetricType::Ability(a) => Some(
            if entry_type == EntryType::Pit {
                FieldKind::Bool
            } else {
                FieldKind::Ability(texts(a.implies@))
            },
        ),
        CollectedMetricType::Enum(e) => Some(FieldKind::Enum(texts(e.options@))),
        CollectedMetricType::Bool(_) => Some(FieldKind::Bool),
        CollectedMetricType::Timer(_) => Some(FieldKind::Timer),
        CollectedMetricType::Counter(c) => Some(FieldKind::Counter(c)),
        CollectedMetricType::TextEntry(t) => Some(FieldKind::TextEntry(t)),
        CollectedMetricType::Image(i) => Some(FieldKind::Image(i)),
        CollectedMetricType::StatboticsTeam(_) => None,
    }
}

impl MatchEntryType {
    /// The type of the field that a metric is entered in.
    pub fn from(value: &CollectedMetricType, entry_type: EntryType) -> (r: Self)
        requires
            field_kind(*value, entry_type) is Some,
        ensures
            Some(r@) == field_kind(*value, entry_type),
    {
        match value {
            CollectedMetricType::Ability(a) => match entry_type {
                EntryType::Pit => MatchEntryType::Bool(BoolMetric {  }),
                _ => MatchEntryType::Ability(AbilityMetric { implies: clone_strings(&a.implies) }),
            },
            CollectedMetricType::Enum(e) => MatchEntryType::Enum(
                EnumMetric { options: clone_strings(&e.options) },
            ),
            CollectedMetricType::Bool(b) => MatchEntryType::Bool(*b),
            CollectedMetricType::Timer(t) => MatchEntryType::Timer(*t),
            CollectedMetricType::Counter(c) => MatchEntryType::Counter(*c),
            CollectedMetricType::TextEntry(t) => MatchEntryType::TextEntry(*t),
            CollectedMetricType::Image(i) => MatchEntryType::Image(*i),
            CollectedMetricType::StatboticsTeam(_) => vstd::pervasive::unreached(),
        }
    }
}

/// Whether a metric with the given option is entered in the given kind of
/// data entry.
pub open spec fn collects(option: CollectionOption, entry_type: EntryType) -> bool {
    match entry_type {
        EntryType::DriveTeam => option == CollectionOption::DriveOnly,
        EntryType::Match => option == CollectionOption::MatchOnly || option
            == CollectionOption::MatchPit,
        EntryType::Pit => option == CollectionOption::PitOnly || option
            == CollectionOption::MatchPit,
    }
}

/// The metrics of a category that are entered in the given kind of data
/// entry, in their order.
pub open spec fn collected(metrics: Seq<(Seq<char>, CollectedMetric)>, entry_type: EntryType) -> Seq<
    (Seq<char>, CollectedMetric),
>
    decreases metrics.len(),
{
    if metrics.len() == 0 {
        Seq::empty()
    } else {
        let rest = collected(metrics.drop_last(), entry_type);
        if collects(metrics.last().1.collect, entry_type) {
            rest.push(metrics.last())
        } else {
            rest
        }
    }
}

/// The ids of a list of metrics.
pub open spec fn ids_of(metrics: Seq<(Seq<char>, CollectedMetric)>) -> Seq<Seq<char>> {
    Seq::new(metrics.len(), |i: int| metrics[i].0)
}

/// The places that a list of metrics asks for.
pub open spec fn orders_of(metrics: Seq<(Seq<char>, CollectedMetric)>) -> Seq<u64> {
    Seq::new(metrics.len(), |i: int| metrics[i].1.order as u64)
}

/// The page of a category: the ids of its metrics that are entered, by the
/// places they ask for.
pub open spec fn page_of(category: MetricCategory, entry_type: EntryType) -> PageView {
    let metrics = collected(category.metrics@, entry_type);
    PageView {
        title: category.name@,
        description: None,
        layout: arranged(ids_of(metrics), orders_of(metrics)),
    }
}

/// The categories that have a page: those with a metric that is entered.
pub open spec fn paged(categories: Seq<(Seq<char>, MetricCategory)>, entry_type: EntryType) -> Seq<
    MetricCategory,
>
    decreases categories.len(),
{
    if categories.len() == 0 {
        Seq::empty()
    } else {
        let rest = paged(categories.drop_last(), entry_type);
        if collected(categories.last().1.metrics@, entry_type).len() > 0 {
            rest.push(categories.last().1)
        } else {
            rest
        }
    }
}

/// The place that a category asks for among the pages; the thousandth where
/// it asks for none.
pub open spec fn page_key(category: MetricCategory) -> u64 {
    match category.order {
        Some(o) => o as u64,
        None => 1000,
    }
}

/// The pages of a game: one for each category with a metric that is
/// entered, by the places the categories ask for.
pub open spec fn pages_of(categories: Seq<(Seq<char>, MetricCategory)>, entry_type: EntryType) -> Seq<
    PageView,
> {
    let with_page = paged(categories, entry_type);
    arranged(
        Seq::new(with_page.len(), |i: int| page_of(with_page[i], entry_type)),
        Seq::new(with_page.len(), |i: int| page_key(with_page[i])),
    )
}

/// The field that a metric of a category is entered in.
pub open spec fn field_of(category: MetricCategory, metric: CollectedMetric, entry_type: EntryType) -> FieldView {
    FieldView {
        title: metric.name@,
        description: metric.description@,
        page: category.name@,
        kind: field_kind(metric.metric, entry_type)->0,
    }
}

/// The fields so far, with those that the first `n` metrics of a category
/// add.
pub open spec fn with_category_fields(
    fields: Seq<(Seq<char>, FieldView)>,
    category: MetricCategory,
    n: int,
    entry_type: EntryType,
) -> Seq<(Seq<char>, FieldView)>
    decreases n,
{
    if n <= 0 {
        fields
    } else {
        let rest = with_category_fields(fields, category, n - 1, entry_type);
        let (id, metric) = category.metrics@[n - 1];
        if collects(metric.collect, entry_type) {
            with_entry(rest, id, field_of(category, metric, entry_type))
        } else {
            rest
        }
    }
}

/// The fields of a game, by the ids of the metrics that are entered. Of two
/// categories with a metric of one id, the later one says what the field is.
pub open spec fn fields_of_game(categories: Seq<(Seq<char>, MetricCategory)>, entry_type: EntryType) -> Seq<
    (Seq<char>, FieldView),
>
    decreases categories.len(),
{
    if categories.len() == 0 {
        Seq::empty()
    } else {
        with_category_fields(
            fields_of_game(categories.drop_last(), entry_type),
            categories.last().1,
            categories.last().1.metrics@.len() as int,
            entry_type,
        )
    }
}

/// Every metric that is entered in the given kind of data entry is of a
/// kind that can be entered: none is a metric of the statistics service.
pub open spec fn collectable(categories: Seq<(Seq<char>, MetricCategory)>, entry_type: EntryType) -> bool {
    forall|c: int, m: int|
        0 <= c < categories.len() && 0 <= m < categories[c].1.metrics@.len() && collects(
            (#[trigger] categories[c].1.metrics@[m]).1.collect,
            entry_type,
        ) ==> field_kind(categories[c].1.metrics@[m].1.metric, entry_type) is Some
}

/// The views of a list of pages.
pub open spec fn page_views(pages: Seq<MatchEntryPage>) -> Seq<PageView> {
    Seq::new(pages.len(), |i: int| pages[i]@)
}

/// The views of the fields of a map.
pub open spec fn field_views(entries: Seq<(Seq<char>, MatchEntry)>) -> Seq<(Seq<char>, FieldView)> {
    mapped(entries, |e: MatchEntry| e@)
}

fn is_collected(option: CollectionOption, entry_type: EntryType) -> (r: bool)
    ensures
        r == collects(option, entry_type),
{
    match entry_type {
        EntryType::DriveTeam => option.collect_from_drive(),
        EntryType::Match => option.collect_in_match(),
        EntryType::Pit => option.collect_in_pit(),
    }
}

fn page_for(category: &MetricCategory, entry_type: EntryType) -> (r: MatchEntryPage)
    ensures
        r@ == page_of(*category, entry_type),
        r.layout@.len() == collected(category.metrics@, entry_type).len(),
{
    let ghost all = category.metrics@;
    let mut ids: Vec<String> = Vec::new();
    let mut keys: Vec<u64> = Vec::new();
    let count: usize = category.metrics.len();
    let mut i: usize = 0;
    assert(all.take(0) =~= Seq::empty());
    assert(texts(ids@) =~= Seq::empty());
    assert(keys@ =~= orders_of(Seq::<(Seq<char>, CollectedMetric)>::empty()));
    while i < count
        invariant
            i <= count,
            count == all.len(),
            all == category.metrics@,
            texts(ids@) == ids_of(collected(all.take(i as int), entry_type)),
            keys@ == orders_of(collected(all.take(i as int), entry_type)),
        decreases count - i,
    {
        let ghost before = collected(all.take(i as int), entry_type);
        let ghost ids_before = texts(ids@);
        proof {
            let next = all.take(i + 1);
            assert(next.drop_last() =~= all.take(i as int));
            assert(next.last() == all[i as int]);
        }
        let metric = category.metrics.value_at(i);
        if is_collected(metric.collect, entry_type) {
            ids.push(category.metrics.key_at(i).clone());
            keys.push(metric.order as u64);
            assert(texts(ids@) =~= ids_before.push(all[i as int].0));
            assert(ids_of(before.push(all[i as int])) =~= ids_of(before).push(all[i as int].0));
            assert(keys@ =~= orders_of(before.push(all[i as int])));
        }
        i += 1;
    }
    assert(all.take(i as int) =~= all);
    let ghost unsorted = ids@;
    let layout = arrange(ids, &keys);
    assert(texts(layout@) =~= arranged(texts(unsorted), keys@));
    MatchEntryPage { title: category.name.clone(), description: None, layout }
}

impl MatchEntryFields {
    /// The fields that a game asks for in one kind of data entry, with the
    /// pages that show them.
    ///
    /// Each category with a metric that is entered has a page, which lists
    /// the ids of these metrics by the places they ask for; the pages come
    /// by the places that their categories ask for. Each metric that is
    /// entered has a field under its id.
    pub fn from_game_config(game_config: &GameConfig, entry_type: EntryType) -> (r: Self)
        requires
            collectable(game_config.categories@, entry_type),
        ensures
            page_views(r.pages@) == pages_of(game_config.categories@, entry_type),
            field_views(r.entries@) == fields_of_game(game_config.categories@, entry_type),
    {
        let ghost categories = game_config.categories@;
        let count: usize = game_config.categories.len();
        let mut pages: Vec<MatchEntryPage> = Vec::new();
        let mut keys: Vec<u64> = Vec::new();
        let mut entries: StrMap<MatchEntry> = StrMap::new();
        let mut c: usize = 0;
        assert(categories.take(0) =~= Seq::empty());
        assert(field_views(entries@) =~= Seq::empty());
        while c < count
            invariant
                c <= count,
                count == categories.len(),
                categories == game_config.categories@,
                collectable(categories, entry_type),
                pages@.len() == paged(categories.take(c as int), entry_type).len(),
                keys@.len() == pages@.len(),
                forall|i: int|
                    0 <= i < pages@.len() ==> (#[trigger] pages@[i])@ == page_of(
                        paged(categories.take(c as int), entry_type)[i],
                        entry_type,
                    ),
                forall|i: int|
                    0 <= i < keys@.len() ==> (#[trigger] keys@[i]) == page_key(
                        paged(categories.take(c as int), entry_type)[i],
                    ),
                field_views(entries@) == fields_of_game(categories.take(c as int), entry_type),
            decreases count - c,
        {
            proof {
                let next = categories.take(c + 1);
                assert(next.drop_last() =~= categories.take(c as int));
                assert(next.last() == categories[c as int]);
            }
            let category = game_config.categories.value_at(c);
            let page = page_for(category, entry_type);
            if page.layout.len() > 0 {
                keys.push(
                    match category.order {
                        Some(o) => o as u64,
                        None => 1000,
                    },
                );
                pages.push(page);
            }
            let ghost start = field_views(entries@);
            let metrics: usize = category.metrics.len();
            let mut m: usize = 0;
            while m < metrics
                invariant
                    m <= metrics,
                    metrics == category.metrics@.len(),
                    c < categories.len(),
                    *category == categories[c as int].1,
                    collectable(categories, entry_type),
                    field_views(entries@) == with_category_fields(
                        start,
                        *category,
                        m as int,
                        entry_type,
                    ),
                decreases metrics - m,
            {
                let metric = category.metrics.value_at(m);
                let ghost before = entries@;
                if is_collected(metric.collect, entry_type) {
                    assert(categories[c as int].1.metrics@[m as int] == (
                        category.metrics@[m as int].0,
                        *metric,
                    ));
                    let entry = MatchEntry {
                        title: metric.name.clone(),
                        description: metric.description.clone(),
                        page: category.name.clone(),
                        entry: MatchEntryType::from(&metric.metric, entry_type),
                    };
                    proof {
                        lemma_with_entry_mapped(
                            before,
                            category.metrics@[m as int].0,
                            entry,
                            |e: MatchEntry| e@,
                        );
                    }
                    entries.insert(category.metrics.key_at(m).clone(), entry);
                }
                m += 1;
            }
            c += 1;
        }
        assert(categories.take(c as int) =~= categories);
        let ghost unsorted = pages@;
        let ghost with_page = paged(categories, entry_type);
        let pages = arrange(pages, &keys);
        assert(keys@ =~= Seq::new(with_page.len(), |i: int| page_key(with_page[i])));
        assert(page_views(pages@) =~= pages_of(categories, entry_type));
        MatchEntryFields { pages, entries }
    }
}

} // verus!
