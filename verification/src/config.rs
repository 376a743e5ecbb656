//! The catalogue of a game: which metrics exist, of what kind they are, where
//! they are collected and how they are shown. It is fixed once it is loaded.
use vstd::prelude::*;
use vstd::string::*;
use crate::config::match_entry::{
    collectable, collects, field_kind, field_views, fields_of_game, page_views, pages_of,
    EntryType, MatchEntryFields,
};
use crate::order::{arrange, arranged};
use crate::str_map::{
    lemma_position_same_keys, lemma_with_entry_mapped, lookup, mapped, with_entry,
    StrMap,
};
use crate::text::{clone_strings, texts};

pub mod match_entry;

verus! {

/// Global configuration for a game
#[derive(Debug, Clone, PartialEq)]
pub struct GameConfig {
    /// The name of this game
    pub name: String,
    /// The year of this game
    pub year: u32,
    /// Metric categories
    pub categories: StrMap<MetricCategory>,
    /// Names of stats to get from the event feed
    pub tba: TbaConfig,
    /// Extra statistics to take from the statistics service
    pub statbotics: StatboticsConfig,
    /// Names of the numbered ranking points, usually 2
    pub ranking_points: Vec<String>,
    /// Configuration on how to display collected information
    pub display: DisplayConfig,
}

/// A category for metrics to collect
#[derive(Debug, Clone, PartialEq)]
pub struct MetricCategory {
    /// The display name for the category
    pub name: String,
    /// The relative position of this category in the UI; lower comes before higher
    pub order: Option<u32>,
    /// The metrics to collect in this category, by id
    pub metrics: StrMap<CollectedMetric>,
}

/// A metric to collect
#[derive(Debug, Clone, PartialEq)]
pub struct CollectedMetric {
    /// The name of this metric
    pub name: String,
    /// The relative position of this metric in the UI; lower comes before higher
    pub order: u32,
    /// A lengthy description for this metric
    pub description: String,
    /// What data gathering stages to collect from
    pub collect: CollectionOption,
    /// Config for what type of data to collect
    pub metric: CollectedMetricType,
}

/// Where to get the data from
#[derive(Debug, Clone, Copy, PartialEq, Eq, Structural)]
pub enum CollectionOption {
    /// Only collect in the match, the default
    MatchOnly,
    /// Collect in the match and the pits
    MatchPit,
    /// Only collect in the pits
    PitOnly,
    /// Only collect from the drivers
    DriveOnly,
    /// Not collected (for values gathered from outside)
    Never,
}

impl Default for CollectionOption {
    fn default() -> (r: Self)
        ensures
            r == CollectionOption::MatchOnly,
    {
        CollectionOption::MatchOnly
    }
}

impl CollectionOption {
    /// Whether the drive team is asked.
    pub fn collect_from_drive(&self) -> (r: bool)
        ensures
            r == (*self == CollectionOption::DriveOnly),
    {
        matches!(self, CollectionOption::DriveOnly)
    }

    /// Whether the metric is collected while a match is scouted.
    pub fn collect_in_match(&self) -> (r: bool)
        ensures
            r == (*self == CollectionOption::MatchOnly || *self == CollectionOption::MatchPit),
    {
        matches!(self, CollectionOption::MatchOnly | CollectionOption::MatchPit)
    }

    /// Whether the metric is collected in the pits.
    pub fn collect_in_pit(&self) -> (r: bool)
        ensures
            r == (*self == CollectionOption::PitOnly || *self == CollectionOption::MatchPit),
    {
        matches!(self, CollectionOption::PitOnly | CollectionOption::MatchPit)
    }
}

/// How to collect the metric
#[derive(Debug, Clone, PartialEq)]
pub enum CollectedMetricType {
    /// Whether the robot has the ability to do something
    Ability(AbilityMetric),
    /// One of a selection of options
    Enum(EnumMetric),
    /// A yes/no question
    Bool(BoolMetric),
    /// An amount of real-world time
    Timer(TimerMetric),
    /// An amount of things
    Counter(CounterMetric),
    /// A text entry field, either single line or multi lined
    TextEntry(TextEntryMetric),
    /// A picture field, for example for pit scouting robot pictures
    Image(ImageMetric),
    /// Data fetched from the statistics service
    StatboticsTeam(StatboticsTeamMetric),
}

/// Whether the robot has the ability to do something.
#[derive(Debug, Clone, PartialEq)]
pub struct AbilityMetric {
    /// If this implies another ability, or set of abilities
    pub implies: Vec<String>,
}

/// One of a selection of options.
#[derive(Debug, Clone, PartialEq)]
pub struct EnumMetric {
    /// Options for the enum
    pub options: Vec<String>,
}

/// A yes/no question.
#[derive(Debug, Clone, Copy, PartialEq, Eq, Structural)]
pub struct BoolMetric {}

/// An amount of real-world time.
#[derive(Debug, Clone, Copy, PartialEq, Eq, Structural)]
pub struct TimerMetric {}

/// An amount of things.
#[derive(Debug, Clone, Copy, PartialEq, Eq, Structural)]
pub struct CounterMetric {
    pub limit_range: Option<CounterRange>,
}

/// The range that a count may lie in.
#[derive(Debug, Clone, Copy, PartialEq, Eq, Structural)]
pub struct CounterRange {
    pub start: i32,
    pub end_inclusive: i32,
}

/// A text, on one line or on several.
#[derive(Debug, Clone, Copy, PartialEq, Eq, Structural)]
pub struct TextEntryMetric {
    pub multiline: bool,
}

/// Pictures.
#[derive(Debug, Clone, Copy, PartialEq, Eq, Structural)]
pub struct ImageMetric {
    pub allow_video: bool,
}

/// Statistics of the statistics service.
#[derive(Debug, Clone, PartialEq)]
pub struct StatboticsTeamMetric {
    /// The statistics to include
    pub props: Vec<String>,
}

/// Configuration for the event feed
#[derive(Debug, Clone, PartialEq)]
pub struct TbaConfig {
    pub order: u32,
    /// The match data properties, by id
    pub props: StrMap<TbaMatchProp>,
}

/// A property of a match that the event feed gives.
#[derive(Debug, Clone, PartialEq)]
pub struct TbaMatchProp {
    pub ty: TbaMatchPropType,
    pub property: String,
    pub name: String,
    pub options: Option<Vec<TbaMatchPropOption>>,
}

/// The type of a property of the event feed.
#[derive(Debug, Clone, Copy, PartialEq, Eq, Structural)]
pub enum TbaMatchPropType {
    Bool,
    Enum,
    Number,
    Sum,
}

/// An option of a property of the event feed.
#[derive(Debug, Clone, PartialEq)]
pub struct TbaMatchPropOption {
    pub id: String,
    pub name: Option<String>,
}

/// Which extra statistics to take from the statistics service
#[derive(Debug, Clone, PartialEq)]
pub struct StatboticsConfig {
    /// The extra statistics, by id
    pub props: StrMap<StatboticsProp>,
}

/// An extra statistic to read from the breakdown of the statistics service.
#[derive(Debug, Clone, PartialEq)]
pub struct StatboticsProp {
    pub ty: MatchStatisticsPropType,
    /// The field to read, for a number
    pub property: Option<String>,
    /// The fields to add up, for a sum
    pub properties: Option<Vec<String>>,
}

/// The type of an extra statistic.
#[derive(Debug, Clone, Copy, PartialEq, Eq, Structural)]
pub enum MatchStatisticsPropType {
    Bool,
    Enum,
    Number,
    Sum,
}

/// Configure how the data is processed and displayed
#[derive(Debug, Clone, PartialEq)]
pub struct DisplayConfig {
    /// Config for the team-list table, specifically the data for a single row
    pub team_row: Vec<DisplayColumn>,
    /// Config for the pre-match display
    pub pre_match: PreMatchDisplay,
}

/// A column for the team-list table
#[derive(Debug, Clone, PartialEq)]
pub enum DisplayColumn {
    /// Display a single metric
    Single(SingleMetric),
    /// Display a single metric, but filter the data by another metric
    Filtered(FilteredMetric),
    /// Team name
    TeamName(TeamNameMetric),
    /// The place, in the common configuration, of the columns of each year
    CommonYearSpecific(CommonYearSpecificMetrics),
}

/// A column that shows one metric.
#[derive(Debug, Clone, PartialEq)]
pub struct SingleMetric {
    /// The id of the metric
    pub metric: String,
    pub display: bool,
}

/// A column that shows one metric, from the matches in which another says yes.
#[derive(Debug, Clone, PartialEq)]
pub struct FilteredMetric {
    /// The id of the metric
    pub metric: String,
    /// The id of the boolean metric to filter by
    pub filter_by: String,
    pub display: bool,
}

/// The column that names the team.
#[derive(Debug, Clone, Copy, PartialEq, Eq, Structural)]
pub struct TeamNameMetric {
    pub display: bool,
}

/// The place that the shared configuration keeps for the columns of a game.
#[derive(Debug, Clone, Copy, PartialEq, Eq, Structural)]
pub struct CommonYearSpecificMetrics {}

/// Configuration for the pre-match display
#[derive(Debug, Clone, PartialEq)]
pub struct PreMatchDisplay {
    /// The metric to use for the score
    pub score: String,
    /// The definition of the score bar graph
    pub graph: Vec<PreMatchGraphElement>,
    /// The metrics to also show on the page
    pub metrics: Vec<String>,
}

/// One part of the score bar graph
#[derive(Debug, Clone, PartialEq)]
pub struct PreMatchGraphElement {
    /// The name of the bar graph component
    pub name: String,
    /// The metric to use for the bar graph component
    pub metric: String,
}

/// The configuration of the team that runs the server.
#[derive(Debug, Clone, PartialEq)]
pub struct TeamConfig {
    pub team: u32,
    pub current_year: u32,
    /// The event code for the current event
    pub current_event: String,
    /// The key for the event feed, never sent to a client
    pub tba_auth_key: String,
}

/// The catalogue of one game with all that is worked out from it.
#[derive(Debug, Clone, PartialEq)]
pub struct GameConfigs {
    /// The catalogue itself, which everything else is worked out from
    pub game_config: GameConfig,
    /// The fields to gather per match when scouting
    pub match_entry_fields: MatchEntryFields,
    /// The fields to gather per match from the drive team
    pub driver_entry_fields: MatchEntryFields,
    /// The fields to gather for pit scouting
    pub pit_entry_fields: MatchEntryFields,
    /// The ids of all metrics, in the order of their categories
    pub all_metrics: Vec<String>,
}

/// The lists, one behind the other.
pub open spec fn joined(lists: Seq<Seq<Seq<char>>>) -> Seq<Seq<char>>
    decreases lists.len(),
{
    if lists.len() == 0 {
        Seq::empty()
    } else {
        joined(lists.drop_last()) + lists.last()
    }
}

/// Each name behind a prefix.
pub open spec fn prefixed(prefix: Seq<char>, names: Seq<Seq<char>>) -> Seq<Seq<char>> {
    Seq::new(names.len(), |i: int| prefix + names[i])
}

/// The ids under which a metric is resolved: its own id, or, for a metric
/// of the statistics service, one id for each of its statistics.
pub open spec fn metric_ids(id: Seq<char>, metric: CollectedMetric) -> Seq<Seq<char>> {
    match metric.metric {
        CollectedMetricType::StatboticsTeam(s) => prefixed("statbotics-"@, texts(s.props@)),
        _ => seq![id],
    }
}

/// The ids of the metrics of a category, by the places they ask for.
pub open spec fn category_ids(category: MetricCategory) -> Seq<Seq<char>> {
    let metrics = category.metrics@;
    joined(
        arranged(
            Seq::new(metrics.len(), |i: int| metric_ids(metrics[i].0, metrics[i].1)),
            Seq::new(metrics.len(), |i: int| metrics[i].1.order as u64),
        ),
    )
}

/// The ids of the properties of the event feed, as metrics.
pub open spec fn feed_ids(tba: TbaConfig) -> Seq<Seq<char>> {
    Seq::new(tba.props@.len(), |i: int| "tba-"@ + tba.props@[i].0)
}

/// The place that a category asks for among all categories: before all
/// others where it asks for none.
pub open spec fn category_key(order: Option<u32>) -> u64 {
    match order {
        Some(o) => (o + 1) as u64,
        None => 0,
    }
}

/// The ids of all metrics of a game: those of each category, and those of
/// the event feed as one more category, by the places that the categories
/// ask for.
pub open spec fn all_metric_ids(config: GameConfig) -> Seq<Seq<char>> {
    let categories = config.categories@;
    joined(
        arranged(
            Seq::new(categories.len(), |i: int| category_ids(categories[i].1)).push(
                feed_ids(config.tba),
            ),
            Seq::new(categories.len(), |i: int| category_key(categories[i].1.order)).push(
                category_key(Some(config.tba.order)),
            ),
        ),
    )
}

/// The lists of strings as contracts see them.
pub open spec fn lists_of(lists: Seq<Vec<String>>) -> Seq<Seq<Seq<char>>> {
    Seq::new(lists.len(), |i: int| texts(lists[i]@))
}

fn join(lists: Vec<Vec<String>>) -> (r: Vec<String>)
    ensures
        texts(r@) == joined(lists_of(lists@)),
{
    let ghost all = lists_of(lists@);
    let mut out: Vec<String> = Vec::new();
    assert(all.take(0) =~= Seq::empty());
    assert(texts(out@) =~= Seq::empty());
    for list in it: lists
        invariant
            it.seq() == lists@,
            all == lists_of(lists@),
            texts(out@) == joined(all.take(it.index() as int)),
    {
        let mut list = list;
        proof {
            let next = all.take(it.index() + 1);
            assert(next.drop_last() =~= all.take(it.index() as int));
            assert(next.last() == texts(list@));
        }
        let ghost before = texts(out@);
        let ghost added = texts(list@);
        out.append(&mut list);
        assert(texts(out@) =~= before + added);
    }
    assert(all.take(all.len() as int) =~= all);
    out
}

fn ids_of_metric(id: &String, metric: &CollectedMetric) -> (r: Vec<String>)
    ensures
        texts(r@) == metric_ids(id@, *metric),
{
    let mut ids: Vec<String> = Vec::new();
    match &metric.metric {
        CollectedMetricType::StatboticsTeam(s) => {
            let mut i: usize = 0;
            while i < s.props.len()
                invariant
                    i <= s.props@.len(),
                    ids@.len() == i,
                    forall|j: int|
                        0 <= j < i ==> (#[trigger] ids@[j])@ == "statbotics-"@ + s.props@[j]@,
                decreases s.props@.len() - i,
            {
                let mut name = String::from_str("statbotics-");
                name.append(s.props[i].as_str());
                ids.push(name);
                i += 1;
            }
            assert(texts(ids@) =~= prefixed("statbotics-"@, texts(s.props@)));
        },
        _ => {
            ids.push(id.clone());
            assert(texts(ids@) =~= seq![id@]);
        },
    }
    ids
}

fn ids_of_category(category: &MetricCategory) -> (r: Vec<String>)
    ensures
        texts(r@) == category_ids(*category),
{
    let ghost metrics = category.metrics@;
    let count: usize = category.metrics.len();
    let mut lists: Vec<Vec<String>> = Vec::new();
    let mut keys: Vec<u64> = Vec::new();
    let mut i: usize = 0;
    while i < count
        invariant
            i <= count,
            count == metrics.len(),
            metrics == category.metrics@,
            lists@.len() == i,
            keys@.len() == i,
            forall|j: int|
                0 <= j < i ==> texts((#[trigger] lists@[j])@) == metric_ids(
                    metrics[j].0,
                    metrics[j].1,
                ),
            forall|j: int| 0 <= j < i ==> (#[trigger] keys@[j]) == metrics[j].1.order as u64,
        decreases count - i,
    {
        lists.push(ids_of_metric(category.metrics.key_at(i), category.metrics.value_at(i)));
        keys.push(category.metrics.value_at(i).order as u64);
        i += 1;
    }
    let ghost unsorted = lists@;
    let sorted = arrange(lists, &keys);
    assert(keys@ =~= Seq::new(metrics.len(), |i: int| metrics[i].1.order as u64));
    assert(lists_of(sorted@) =~= arranged(
        Seq::new(metrics.len(), |i: int| metric_ids(metrics[i].0, metrics[i].1)),
        keys@,
    ));
    join(sorted)
}

fn ids_of_feed(tba: &TbaConfig) -> (r: Vec<String>)
    ensures
        texts(r@) == feed_ids(*tba),
{
    let count: usize = tba.props.len();
    let mut ids: Vec<String> = Vec::new();
    let mut i: usize = 0;
    while i < count
        invariant
            i <= count,
            count == tba.props@.len(),
            ids@.len() == i,
            forall|j: int| 0 <= j < i ==> (#[trigger] ids@[j])@ == "tba-"@ + tba.props@[j].0,
        decreases count - i,
    {
        let mut name = String::from_str("tba-");
        name.append(tba.props.key_at(i).as_str());
        ids.push(name);
        i += 1;
    }
    assert(texts(ids@) =~= feed_ids(*tba));
    ids
}

fn key_of_category(order: Option<u32>) -> (r: u64)
    ensures
        r == category_key(order),
{
    match order {
        Some(o) => o as u64 + 1,
        None => 0,
    }
}

fn ids_of_all(config: &GameConfig) -> (r: Vec<String>)
    ensures
        texts(r@) == all_metric_ids(*config),
{
    let ghost categories = config.categories@;
    let count: usize = config.categories.len();
    let mut lists: Vec<Vec<String>> = Vec::new();
    let mut keys: Vec<u64> = Vec::new();
    let mut i: usize = 0;
    while i < count
        invariant
            i <= count,
            count == categories.len(),
            categories == config.categories@,
            lists@.len() == i,
            keys@.len() == i,
            forall|j: int|
                0 <= j < i ==> texts((#[trigger] lists@[j])@) == category_ids(categories[j].1),
            forall|j: int| 0 <= j < i ==> (#[trigger] keys@[j]) == category_key(categories[j].1.order),
        decreases count - i,
    {
        lists.push(ids_of_category(config.categories.value_at(i)));
        keys.push(key_of_category(config.categories.value_at(i).order));
        i += 1;
    }
    lists.push(ids_of_feed(&config.tba));
    keys.push(key_of_category(Some(config.tba.order)));
    let ghost spec_lists = Seq::new(categories.len(), |i: int| category_ids(categories[i].1)).push(
        feed_ids(config.tba),
    );
    let ghost spec_keys = Seq::new(
        categories.len(),
        |i: int| category_key(categories[i].1.order),
    ).push(category_key(Some(config.tba.order)));
    assert(keys@ =~= spec_keys);
    assert(lists_of(lists@) =~= spec_lists);
    let ghost unsorted = lists@;
    let sorted = arrange(lists, &keys);
    assert(lists_of(sorted@) =~= arranged(spec_lists, spec_keys));
    join(sorted)
}

impl GameConfigs {
    /// Works out, from the catalogue of a game, the fields of each kind of
    /// data entry and the ids of all metrics.
    pub fn from(value: GameConfig) -> (r: Self)
        requires
            collectable(value.categories@, EntryType::Match),
            collectable(value.categories@, EntryType::DriveTeam),
            collectable(value.categories@, EntryType::Pit),
        ensures
            r.game_config == value,
            texts(r.all_metrics@) == all_metric_ids(value),
            page_views(r.match_entry_fields.pages@) == pages_of(value.categories@, EntryType::Match),
            field_views(r.match_entry_fields.entries@) == fields_of_game(
                value.categories@,
                EntryType::Match,
            ),
            page_views(r.driver_entry_fields.pages@) == pages_of(
                value.categories@,
                EntryType::DriveTeam,
            ),
            field_views(r.driver_entry_fields.entries@) == fields_of_game(
                value.categories@,
                EntryType::DriveTeam,
            ),
            page_views(r.pit_entry_fields.pages@) == pages_of(value.categories@, EntryType::Pit),
            field_views(r.pit_entry_fields.entries@) == fields_of_game(
                value.categories@,
                EntryType::Pit,
            ),
    {
        GameConfigs {
            match_entry_fields: MatchEntryFields::from_game_config(&value, EntryType::Match),
            driver_entry_fields: MatchEntryFields::from_game_config(&value, EntryType::DriveTeam),
            pit_entry_fields: MatchEntryFields::from_game_config(&value, EntryType::Pit),
            all_metrics: ids_of_all(&value),
            game_config: value,
        }
    }
}

impl GameConfigs {
    /// The catalogue of a game with all that is worked out from it, once the
    /// configuration that all games share is set into it.
    pub fn load(config: GameConfig, common: &GameConfig) -> (r: Self)
        ensures
            r.game_config.year == config.year,
            r.game_config.name == config.name,
            columns_of(r.game_config.display.team_row@) == merged_row(
                columns_of(common.display.team_row@),
                columns_of(config.display.team_row@),
            ),
            categories_of(r.game_config.categories@) == outside_categories(
                with_shared_categories(
                    categories_of(config.categories@),
                    categories_of(common.categories@),
                    common.categories@.len() as int,
                ),
            ),
            texts(r.all_metrics@) == all_metric_ids(r.game_config),
            page_views(r.match_entry_fields.pages@) == pages_of(
                r.game_config.categories@,
                EntryType::Match,
            ),
            field_views(r.match_entry_fields.entries@) == fields_of_game(
                r.game_config.categories@,
                EntryType::Match,
            ),
            page_views(r.driver_entry_fields.pages@) == pages_of(
                r.game_config.categories@,
                EntryType::DriveTeam,
            ),
            field_views(r.driver_entry_fields.entries@) == fields_of_game(
                r.game_config.categories@,
                EntryType::DriveTeam,
            ),
            page_views(r.pit_entry_fields.pages@) == pages_of(
                r.game_config.categories@,
                EntryType::Pit,
            ),
            field_views(r.pit_entry_fields.entries@) == fields_of_game(
                r.game_config.categories@,
                EntryType::Pit,
            ),
    {
        GameConfigs::from(config.with_common(common))
    }
}

/// The configuration of every game, with that of the team that runs the
/// server. The game of the current year is among the games.
#[derive(Debug, PartialEq)]
pub struct ConfigManager {
    /// Game configs for each year
    games: Vec<GameConfigs>,
    /// Configuration that varies per instance
    config: TeamConfig,
}

/// The game of a year: the last of `games` that is of that year.
pub open spec fn game_of(games: Seq<GameConfigs>, year: u32) -> Option<GameConfigs>
    decreases games.len(),
{
    if games.len() == 0 {
        None
    } else if games.last().game_config.year == year {
        Some(games.last())
    } else {
        game_of(games.drop_last(), year)
    }
}

fn find_game(games: &Vec<GameConfigs>, year: u32) -> (r: Option<&GameConfigs>)
    ensures
        r == (match game_of(games@, year) {
            Some(g) => Some(&g),
            None => None,
        }),
{
    let mut i: usize = games.len();
    assert(games@.take(i as int) =~= games@);
    while i > 0
        invariant
            i <= games@.len(),
            game_of(games@, year) == game_of(games@.take(i as int), year),
        decreases i,
    {
        proof {
            let now = games@.take(i as int);
            assert(now.drop_last() =~= games@.take(i - 1));
            assert(now.last() == games@[i - 1]);
        }
        if games[i - 1].game_config.year == year {
            return Some(&games[i - 1]);
        }
        i -= 1;
    }
    None
}

impl ConfigManager {
    #[verifier::type_invariant]
    spec fn has_current_game(&self) -> bool {
        game_of(self.games@, self.config.current_year) is Some
    }

    /// The games that are configured.
    pub closed spec fn games(&self) -> Seq<GameConfigs> {
        self.games@
    }

    /// The configuration of the team.
    pub closed spec fn team(&self) -> TeamConfig {
        self.config
    }

    /// Puts the configurations together; nothing where the game of the
    /// current year is not among the games.
    pub fn new(games: Vec<GameConfigs>, config: TeamConfig) -> (r: Option<Self>)
        ensures
            r is Some <==> game_of(games@, config.current_year) is Some,
            r matches Some(m) ==> m.games() == games@ && m.team() == config,
    {
        if find_game(&games, config.current_year).is_some() {
            Some(ConfigManager { games, config })
        } else {
            None
        }
    }

    /// The full configuration of the game of a year.
    pub fn get_game_config(&self, year: u32) -> (r: Option<&GameConfigs>)
        ensures
            r == (match game_of(self.games(), year) {
                Some(g) => Some(&g),
                None => None,
            }),
    {
        find_game(&self.games, year)
    }

    /// The full configuration of the game of the current year.
    pub fn get_current_game_config(&self) -> (r: &GameConfigs)
        ensures
            Some(*r) == game_of(self.games(), self.team().current_year),
    {
        proof {
            use_type_invariant(self);
        }
        match find_game(&self.games, self.config.current_year) {
            Some(g) => g,
            None => vstd::pervasive::unreached(),
        }
    }

    /// The configuration of the team.
    pub fn get_server_config(&self) -> (r: &TeamConfig)
        ensures
            *r == self.team(),
    {
        &self.config
    }

    /// The key for the event feed.
    pub fn get_tba_auth_key(&self) -> (r: &str)
        ensures
            r@ == self.team().tba_auth_key@,
    {
        self.config.tba_auth_key.as_str()
    }
}

/// The type of a metric as contracts see it.
pub enum MetricTypeView {
    Ability(Seq<Seq<char>>),
    Enum(Seq<Seq<char>>),
    Bool,
    Timer,
    Counter(CounterMetric),
    TextEntry(TextEntryMetric),
    Image(ImageMetric),
    StatboticsTeam(Seq<Seq<char>>),
}

impl View for CollectedMetricType {
    type V = MetricTypeView;

    open spec fn view(&self) -> MetricTypeView {
        match *self {
            CollectedMetricType::Ability(a) => MetricTypeView::Ability(texts(a.implies@)),
            CollectedMetricType::Enum(e) => MetricTypeView::Enum(texts(e.options@)),
            CollectedMetricType::Bool(_) => MetricTypeView::Bool,
            CollectedMetricType::Timer(_) => MetricTypeView::Timer,
            CollectedMetricType::Counter(c) => MetricTypeView::Counter(c),
            CollectedMetricType::TextEntry(t) => MetricTypeView::TextEntry(t),
            CollectedMetricType::Image(i) => MetricTypeView::Image(i),
            CollectedMetricType::StatboticsTeam(s) => MetricTypeView::StatboticsTeam(
                texts(s.props@),
            ),
        }
    }
}

/// A metric as contracts see it.
pub struct MetricView {
    pub name: Seq<char>,
    pub order: u32,
    pub description: Seq<char>,
    pub collect: CollectionOption,
    pub metric: MetricTypeView,
}

impl View for CollectedMetric {
    type V = MetricView;

    open spec fn view(&self) -> MetricView {
        MetricView {
            name: self.name@,
            order: self.order,
            description: self.description@,
            collect: self.collect,
            metric: self.metric@,
        }
    }
}

/// The metrics of a category as contracts see them.
pub type Metrics = Seq<(Seq<char>, MetricView)>;

/// The metrics of a map as contracts see them.
pub open spec fn metrics_of(metrics: Seq<(Seq<char>, CollectedMetric)>) -> Metrics {
    mapped(metrics, |m: CollectedMetric| m@)
}

/// A category as contracts see it.
pub struct CategoryView {
    pub name: Seq<char>,
    pub order: Option<u32>,
    pub metrics: Metrics,
}

impl View for MetricCategory {
    type V = CategoryView;

    open spec fn view(&self) -> CategoryView {
        CategoryView { name: self.name@, order: self.order, metrics: metrics_of(self.metrics@) }
    }
}

/// The categories of a game as contracts see them.
pub type Categories = Seq<(Seq<char>, CategoryView)>;

/// The categories of a map as contracts see them.
pub open spec fn categories_of(categories: Seq<(Seq<char>, MetricCategory)>) -> Categories {
    mapped(categories, |c: MetricCategory| c@)
}

/// A column as contracts see it.
pub enum ColumnView {
    Single { metric: Seq<char>, display: bool },
    Filtered { metric: Seq<char>, filter_by: Seq<char>, display: bool },
    TeamName { display: bool },
    CommonYearSpecific,
}

impl View for DisplayColumn {
    type V = ColumnView;

    open spec fn view(&self) -> ColumnView {
        match *self {
            DisplayColumn::Single(m) => ColumnView::Single { metric: m.metric@, display: m.display },
            DisplayColumn::Filtered(m) => ColumnView::Filtered {
                metric: m.metric@,
                filter_by: m.filter_by@,
                display: m.display,
            },
            DisplayColumn::TeamName(m) => ColumnView::TeamName { display: m.display },
            DisplayColumn::CommonYearSpecific(_) => ColumnView::CommonYearSpecific,
        }
    }
}

/// The columns of a row as contracts see them.
pub open spec fn columns_of(row: Seq<DisplayColumn>) -> Seq<ColumnView> {
    Seq::new(row.len(), |i: int| row[i]@)
}

/// The team row of a game, set into the row that all games share: the
/// columns of the shared row, with the columns of the game in each place
/// that the shared row keeps for them.
pub open spec fn merged_row(shared: Seq<ColumnView>, own: Seq<ColumnView>) -> Seq<ColumnView>
    decreases shared.len(),
{
    if shared.len() == 0 {
        Seq::empty()
    } else {
        merged_row(shared.drop_last(), own) + (if shared.last() is CommonYearSpecific {
            own
        } else {
            seq![shared.last()]
        })
    }
}

/// The metrics of a category with the first `n` shared metrics set into
/// them: a shared metric takes the place of a metric of the same id.
pub open spec fn with_shared_metrics(own: Metrics, shared: Metrics, n: int) -> Metrics
    decreases n,
{
    if n <= 0 {
        own
    } else {
        with_entry(with_shared_metrics(own, shared, n - 1), shared[n - 1].0, shared[n - 1].1)
    }
}

/// A category with the shared category of the same id set into it: it keeps
/// its name, takes the place that the shared category asks for where it asks
/// for none itself, and takes the shared metrics.
pub open spec fn merged_category(own: CategoryView, shared: CategoryView) -> CategoryView {
    CategoryView {
        name: own.name,
        order: match own.order {
            Some(o) => Some(o),
            None => shared.order,
        },
        metrics: with_shared_metrics(own.metrics, shared.metrics, shared.metrics.len() as int),
    }
}

/// The categories of a game with the first `n` shared categories set into
/// them: a shared category is merged into the category of the same id, and
/// is a category of the game where the game has none of that id.
pub open spec fn with_shared_categories(own: Categories, shared: Categories, n: int) -> Categories
    decreases n,
{
    if n <= 0 {
        own
    } else {
        let rest = with_shared_categories(own, shared, n - 1);
        let (id, category) = shared[n - 1];
        match lookup(rest, id) {
            Some(c) => with_entry(rest, id, merged_category(c, category)),
            None => with_entry(rest, id, category),
        }
    }
}

/// A metric that is never entered where it is a metric of the statistics
/// service.
pub open spec fn outside_metric(m: MetricView) -> MetricView {
    if m.metric is StatboticsTeam {
        MetricView { collect: CollectionOption::Never, ..m }
    } else {
        m
    }
}

/// The categories with no metric of the statistics service entered
/// anywhere.
pub open spec fn outside_categories(categories: Categories) -> Categories {
    Seq::new(
        categories.len(),
        |c: int|
            (
                categories[c].0,
                CategoryView {
                    metrics: Seq::new(
                        categories[c].1.metrics.len(),
                        |m: int|
                            (
                                categories[c].1.metrics[m].0,
                                outside_metric(categories[c].1.metrics[m].1),
                            ),
                    ),
                    ..categories[c].1
                },
            ),
    )
}

fn clone_metric(m: &CollectedMetric) -> (r: CollectedMetric)
    ensures
        r@ == m@,
{
    CollectedMetric {
        name: m.name.clone(),
        order: m.order,
        description: m.description.clone(),
        collect: m.collect,
        metric: match &m.metric {
            CollectedMetricType::Ability(a) => CollectedMetricType::Ability(
                AbilityMetric { implies: clone_strings(&a.implies) },
            ),
            CollectedMetricType::Enum(e) => CollectedMetricType::Enum(
                EnumMetric { options: clone_strings(&e.options) },
            ),
            CollectedMetricType::Bool(b) => CollectedMetricType::Bool(*b),
            CollectedMetricType::Timer(t) => CollectedMetricType::Timer(*t),
            CollectedMetricType::Counter(c) => CollectedMetricType::Counter(*c),
            CollectedMetricType::TextEntry(t) => CollectedMetricType::TextEntry(*t),
            CollectedMetricType::Image(i) => CollectedMetricType::Image(*i),
            CollectedMetricType::StatboticsTeam(s) => CollectedMetricType::StatboticsTeam(
                StatboticsTeamMetric { props: clone_strings(&s.props) },
            ),
        },
    }
}

fn clone_category(c: &MetricCategory) -> (r: MetricCategory)
    ensures
        r@ == c@,
{
    let mut metrics: StrMap<CollectedMetric> = StrMap::new();
    let n: usize = c.metrics.len();
    let mut i: usize = 0;
    while i < n
        invariant
            i <= n,
            n == c.metrics@.len(),
            metrics@.len() == i,
            forall|j: int| 0 <= j < i ==> metrics_of(metrics@)[j] == metrics_of(c.metrics@)[j],
        decreases n - i,
    {
        let ghost before = metrics@;
        metrics.push(c.metrics.key_at(i).clone(), clone_metric(c.metrics.value_at(i)));
        proof {
            assert forall|j: int| 0 <= j < i + 1 implies metrics_of(metrics@)[j] == metrics_of(
                c.metrics@,
            )[j] by {
                if j < i {
                    assert(metrics@[j] == before[j]);
                    assert(metrics_of(before)[j] == metrics_of(c.metrics@)[j]);
                }
            }
        }
        i += 1;
    }
    assert(metrics_of(metrics@) =~= metrics_of(c.metrics@));
    MetricCategory { name: c.name.clone(), order: c.order, metrics }
}

fn clone_column(c: &DisplayColumn) -> (r: DisplayColumn)
    ensures
        r@ == c@,
{
    match c {
        DisplayColumn::Single(m) => DisplayColumn::Single(
            SingleMetric { metric: m.metric.clone(), display: m.display },
        ),
        DisplayColumn::Filtered(m) => DisplayColumn::Filtered(
            FilteredMetric {
                metric: m.metric.clone(),
                filter_by: m.filter_by.clone(),
                display: m.display,
            },
        ),
        DisplayColumn::TeamName(m) => DisplayColumn::TeamName(*m),
        DisplayColumn::CommonYearSpecific(m) => DisplayColumn::CommonYearSpecific(*m),
    }
}

fn merge_row(shared: &Vec<DisplayColumn>, own: &Vec<DisplayColumn>) -> (r: Vec<DisplayColumn>)
    ensures
        columns_of(r@) == merged_row(columns_of(shared@), columns_of(own@)),
{
    let ghost all = columns_of(shared@);
    let mut row: Vec<DisplayColumn> = Vec::new();
    let mut i: usize = 0;
    assert(all.take(0) =~= Seq::empty());
    assert(columns_of(row@) =~= Seq::empty());
    while i < shared.len()
        invariant
            i <= shared@.len(),
            all == columns_of(shared@),
            columns_of(row@) == merged_row(all.take(i as int), columns_of(own@)),
        decreases shared@.len() - i,
    {
        let ghost before = columns_of(row@);
        proof {
            let next = all.take(i + 1);
            assert(next.drop_last() =~= all.take(i as int));
            assert(next.last() == shared@[i as int]@);
        }
        match &shared[i] {
            DisplayColumn::CommonYearSpecific(_) => {
                let mut j: usize = 0;
                while j < own.len()
                    invariant
                        j <= own@.len(),
                        columns_of(row@) == before + columns_of(own@).take(j as int),
                    decreases own@.len() - j,
                {
                    let ghost so_far = columns_of(row@);
                    row.push(clone_column(&own[j]));
                    assert(columns_of(row@) =~= so_far.push(own@[j as int]@));
                    assert(columns_of(own@).take(j + 1) =~= columns_of(own@).take(j as int).push(
                        own@[j as int]@,
                    ));
                    j += 1;
                }
                assert(columns_of(own@).take(j as int) =~= columns_of(own@));
            },
            column => {
                row.push(clone_column(column));
                assert(columns_of(row@) =~= before + seq![shared@[i as int]@]);
            },
        }
        i += 1;
    }
    assert(all.take(i as int) =~= all);
    row
}

fn merge_metrics(own: &mut StrMap<CollectedMetric>, shared: &StrMap<CollectedMetric>)
    ensures
        metrics_of(final(own)@) == with_shared_metrics(
            metrics_of(old(own)@),
            metrics_of(shared@),
            shared@.len() as int,
        ),
{
    let n: usize = shared.len();
    let mut i: usize = 0;
    while i < n
        invariant
            i <= n,
            n == shared@.len(),
            metrics_of(own@) == with_shared_metrics(
                metrics_of(old(own)@),
                metrics_of(shared@),
                i as int,
            ),
        decreases n - i,
    {
        let metric = clone_metric(shared.value_at(i));
        proof {
            lemma_with_entry_mapped(own@, shared@[i as int].0, metric, |m: CollectedMetric| m@);
        }
        own.insert(shared.key_at(i).clone(), metric);
        i += 1;
    }
}

fn merge_categories(own: &mut StrMap<MetricCategory>, shared: &StrMap<MetricCategory>)
    ensures
        categories_of(final(own)@) == with_shared_categories(
            categories_of(old(own)@),
            categories_of(shared@),
            shared@.len() as int,
        ),
{
    let ghost view = |c: MetricCategory| c@;
    let n: usize = shared.len();
    let mut i: usize = 0;
    while i < n
        invariant
            i <= n,
            n == shared@.len(),
            view == (|c: MetricCategory| c@),
            categories_of(own@) == with_shared_categories(
                categories_of(old(own)@),
                categories_of(shared@),
                i as int,
            ),
        decreases n - i,
    {
        let id = shared.key_at(i);
        let category = shared.value_at(i);
        let ghost before = own@;
        proof {
            lemma_position_same_keys(categories_of(before), before, id@);
            crate::str_map::lemma_position(before, id@);
        }
        match own.position(id.as_str()) {
            Some(at) => {
                let mine = own.value_mut(at);
                if mine.order.is_none() {
                    mine.order = category.order;
                }
                merge_metrics(&mut mine.metrics, &category.metrics);
                proof {
                    let merged = own@[at as int].1;
                    assert(merged@ == merged_category(before[at as int].1@, category@));
                    assert(own@ =~= with_entry(before, id@, merged));
                    lemma_with_entry_mapped(before, id@, merged, view);
                }
            },
            None => {
                let copy = clone_category(category);
                proof {
                    lemma_with_entry_mapped(before, id@, copy, view);
                }
                own.insert(id.clone(), copy);
            },
        }
        i += 1;
    }
}

fn keep_statistics_outside(categories: &mut StrMap<MetricCategory>)
    ensures
        categories_of(final(categories)@) == outside_categories(categories_of(old(categories)@)),
{
    let ghost start = categories_of(categories@);
    let n: usize = categories.len();
    let mut c: usize = 0;
    while c < n
        invariant
            c <= n,
            n == categories@.len(),
            n == start.len(),
            forall|i: int| 0 <= i < c ==> categories_of(categories@)[i] == outside_categories(start)[i],
            forall|i: int| c <= i < n ==> categories_of(categories@)[i] == start[i],
        decreases n - c,
    {
        let ghost before = categories@;
        let category = categories.value_mut(c);
        let ghost name = category.name;
        let ghost order = category.order;
        let ghost metrics_start = metrics_of(category.metrics@);
        let count: usize = category.metrics.len();
        let mut m: usize = 0;
        while m < count
            invariant
                m <= count,
                count == category.metrics@.len(),
                count == metrics_start.len(),
                category.name == name,
                category.order == order,
                forall|i: int|
                    0 <= i < m ==> metrics_of(category.metrics@)[i] == (
                        metrics_start[i].0,
                        outside_metric(metrics_start[i].1),
                    ),
                forall|i: int| m <= i < count ==> metrics_of(category.metrics@)[i] == metrics_start[i],
            decreases count - m,
        {
            let ghost held = category.metrics@;
            let metric = category.metrics.value_mut(m);
            match &metric.metric {
                CollectedMetricType::StatboticsTeam(_) => {
                    metric.collect = CollectionOption::Never;
                },
                _ => {},
            }
            proof {
                assert(metrics_of(held)[m as int] == metrics_start[m as int]);
                assert forall|i: int| 0 <= i < m + 1 implies metrics_of(category.metrics@)[i] == (
                    metrics_start[i].0,
                    outside_metric(metrics_start[i].1),
                ) by {
                    if i < m {
                        assert(category.metrics@[i] == held[i]);
                        assert(metrics_of(held)[i] == (
                            metrics_start[i].0,
                            outside_metric(metrics_start[i].1),
                        ));
                    }
                }
                assert forall|i: int| m < i < count implies metrics_of(category.metrics@)[i]
                    == metrics_start[i] by {
                    assert(category.metrics@[i] == held[i]);
                    assert(metrics_of(held)[i] == metrics_start[i]);
                }
            }
            m += 1;
        }
        proof {
            assert(categories_of(categories@)[c as int].1.metrics =~= outside_categories(
                start,
            )[c as int].1.metrics);
            assert forall|i: int| c < i < n implies categories_of(categories@)[i] == start[i] by {
                assert(categories@[i] == before[i]);
            }
            assert forall|i: int| 0 <= i < c implies categories_of(categories@)[i]
                == outside_categories(start)[i] by {
                assert(categories@[i] == before[i]);
            }
        }
        c += 1;
    }
    assert(categories_of(categories@) =~= outside_categories(start));
}

/// No metric of the statistics service is entered anywhere.
pub open spec fn statistics_outside(categories: Categories) -> bool {
    forall|c: int, m: int|
        0 <= c < categories.len() && 0 <= m < categories[c].1.metrics.len() && (
        #[trigger] categories[c].1.metrics[m]).1.metric is StatboticsTeam
            ==> categories[c].1.metrics[m].1.collect == CollectionOption::Never
}

/// Where no metric of the statistics service is entered anywhere, every
/// metric that is entered can be entered.
pub proof fn lemma_collectable(categories: Seq<(Seq<char>, MetricCategory)>, entry_type: EntryType)
    requires
        statistics_outside(categories_of(categories)),
    ensures
        collectable(categories, entry_type),
{
    assert forall|c: int, m: int|
        0 <= c < categories.len() && 0 <= m < categories[c].1.metrics@.len() && collects(
            (#[trigger] categories[c].1.metrics@[m]).1.collect,
            entry_type,
        ) implies field_kind(categories[c].1.metrics@[m].1.metric, entry_type) is Some by {
        let metric = categories_of(categories)[c].1.metrics[m];
        assert(metric.1 == categories[c].1.metrics@[m].1@);
    }
}

impl GameConfig {
    /// Sets the configuration that all games share into that of one game.
    ///
    /// The team row is that of the shared configuration, with the columns of
    /// the game in the place that is kept for them. Each shared category is
    /// merged into the category of the same id, or added. Afterwards no
    /// metric of the statistics service is entered anywhere.
    pub fn with_common(self, common: &GameConfig) -> (r: GameConfig)
        ensures
            r.name == self.name,
            r.year == self.year,
            r.tba == self.tba,
            r.statbotics == self.statbotics,
            r.ranking_points == self.ranking_points,
            r.display.pre_match == self.display.pre_match,
            columns_of(r.display.team_row@) == merged_row(
                columns_of(common.display.team_row@),
                columns_of(self.display.team_row@),
            ),
            categories_of(r.categories@) == outside_categories(
                with_shared_categories(
                    categories_of(self.categories@),
                    categories_of(common.categories@),
                    common.categories@.len() as int,
                ),
            ),
            collectable(r.categories@, EntryType::Match),
            collectable(r.categories@, EntryType::DriveTeam),
            collectable(r.categories@, EntryType::Pit),
    {
        let mut config = self;
        config.display.team_row = merge_row(&common.display.team_row, &config.display.team_row);
        merge_categories(&mut config.categories, &common.categories);
        keep_statistics_outside(&mut config.categories);
        proof {
            lemma_collectable(config.categories@, EntryType::Match);
            lemma_collectable(config.categories@, EntryType::DriveTeam);
            lemma_collectable(config.categories@, EntryType::Pit);
        }
        config
    }
}

} // verus!
