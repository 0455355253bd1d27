//! The browser pane: its title is a dropdown menu that switches between sections (Search,
//! Playlists, Albums, Artists, Recommendations).

use rand::seq::IteratorRandom;
use vstd::prelude::*;

use super::dropdown::{anchor_below, choice_label, label_choice, title_start, Dropdown, PaneDropdownMenu};
use super::event::{local, local_position, Event, Key, MouseButton, MouseEvent};
use super::listview::{browser_options, should_paginate, ListView, Pagination};
use super::paint::{
    blank_at, highlight_style, secondary_style, text_at, Frame, StrokeView, Style,
};
use super::scroll::fresh_core;
use super::slots::SlotRule;
use super::tracklist::TrackListView;
use crate::command::{Command, TargetMode};
use crate::config::{icon_text, ConfigValues, IconKind};
use crate::geometry::{less, min, monus, Vec2};
use crate::sort::{is_sorted, is_total_order, lemma_sort_of_views, lemma_stable_sort, sort, stable_sort, Ranked};
use crate::text::{
    are_in_order, chars_of, concat, in_order, lemma_in_order_is_total,
    lemma_in_order_is_transitive, lowercase, maybe_text, same_text, string_of, texts,
};

verus! {

#[derive(Clone, Copy, Debug, PartialEq, Eq, Structural)]
pub enum BrowserSection {
    Search,
    Playlists,
    Albums,
    Artists,
    Recommendations,
}

pub open spec fn section_title(section: BrowserSection) -> Seq<char> {
    match section {
        BrowserSection::Search => "Search"@,
        BrowserSection::Playlists => "Playlists"@,
        BrowserSection::Albums => "Albums"@,
        BrowserSection::Artists => "Artists"@,
        BrowserSection::Recommendations => "Recommendations"@,
    }
}

/// The section that the configuration means by a name.
pub open spec fn section_named(name: Seq<char>) -> Option<BrowserSection> {
    if name == "search"@ {
        Some(BrowserSection::Search)
    } else if name == "playlists"@ {
        Some(BrowserSection::Playlists)
    } else if name == "albums"@ {
        Some(BrowserSection::Albums)
    } else if name == "artists"@ {
        Some(BrowserSection::Artists)
    } else if name == "recommendations"@ {
        Some(BrowserSection::Recommendations)
    } else {
        None
    }
}

pub open spec fn section_icon(section: BrowserSection) -> IconKind {
    match section {
        BrowserSection::Search => IconKind::MenuSearch,
        BrowserSection::Playlists => IconKind::MenuPlaylists,
        BrowserSection::Albums => IconKind::MenuAlbums,
        BrowserSection::Artists => IconKind::MenuArtists,
        BrowserSection::Recommendations => IconKind::MenuRecommendations,
    }
}

impl BrowserSection {
    pub fn label(self) -> (label: &'static str)
        ensures
            label@ == section_title(self),
    {
        match self {
            BrowserSection::Search => "Search",
            BrowserSection::Playlists => "Playlists",
            BrowserSection::Albums => "Albums",
            BrowserSection::Artists => "Artists",
            BrowserSection::Recommendations => "Recommendations",
        }
    }

    pub fn parse(name: &str) -> (section: Option<BrowserSection>)
        ensures
            section == section_named(name@),
    {
        if same_text(name, "search") {
            Some(BrowserSection::Search)
        } else if same_text(name, "playlists") {
            Some(BrowserSection::Playlists)
        } else if same_text(name, "albums") {
            Some(BrowserSection::Albums)
        } else if same_text(name, "artists") {
            Some(BrowserSection::Artists)
        } else if same_text(name, "recommendations") {
            Some(BrowserSection::Recommendations)
        } else {
            None
        }
    }

    fn icon(self) -> (icon: IconKind)
        ensures
            icon == section_icon(self),
    {
        match self {
            BrowserSection::Search => IconKind::MenuSearch,
            BrowserSection::Playlists => IconKind::MenuPlaylists,
            BrowserSection::Albums => IconKind::MenuAlbums,
            BrowserSection::Artists => IconKind::MenuArtists,
            BrowserSection::Recommendations => IconKind::MenuRecommendations,
        }
    }
}

/// The sections unless the configuration names others.
pub open spec fn default_sections() -> Seq<BrowserSection> {
    seq![
        BrowserSection::Search,
        BrowserSection::Playlists,
        BrowserSection::Albums,
        BrowserSection::Artists,
        BrowserSection::Recommendations,
    ]
}

/// The sections that are named, in the order of their names. Unknown names are skipped.
pub open spec fn named_sections(names: Seq<Seq<char>>) -> Seq<BrowserSection>
    decreases names.len(),
{
    if names.len() == 0 {
        Seq::empty()
    } else {
        match section_named(names.last()) {
            Some(section) => named_sections(names.drop_last()).push(section),
            None => named_sections(names.drop_last()),
        }
    }
}

/// The sections of the menu: those that the configuration names, or else all.
pub open spec fn configured_sections(values: ConfigValues) -> Seq<BrowserSection> {
    let named = match browser_options(values) {
        Some(options) => match options.sections {
            Some(names) => named_sections(texts(names@)),
            None => Seq::empty(),
        },
        None => Seq::empty(),
    };
    if named.len() > 0 {
        named
    } else {
        default_sections()
    }
}

/// The first section that is not the search.
pub open spec fn first_list(sections: Seq<BrowserSection>) -> Option<BrowserSection>
    decreases sections.len(),
{
    if sections.len() == 0 {
        None
    } else if sections[0] != BrowserSection::Search {
        Some(sections[0])
    } else {
        first_list(sections.skip(1))
    }
}

/// The section that is shown first: the one that the configuration names, if it is one of the
/// menu's, or else the first that is not the search, or else the first.
pub open spec fn start_section(values: ConfigValues) -> BrowserSection {
    let sections = configured_sections(values);
    let named = match browser_options(values) {
        Some(options) => match options.default_section {
            Some(name) => section_named(name@),
            None => None,
        },
        None => None,
    };
    match named {
        Some(section) if sections.contains(section) => section,
        _ => match first_list(sections) {
            Some(section) => section,
            None => sections[0],
        },
    }
}

/// Whether the lists are sorted by name.
pub open spec fn sorts_by_name(values: ConfigValues) -> bool {
    match browser_options(values) {
        Some(options) => options.sort is Some && options.sort->0@ == "name"@,
        None => false,
    }
}

fn default_section_list() -> (sections: Vec<BrowserSection>)
    ensures
        sections@ == default_sections(),
{
    let mut sections: Vec<BrowserSection> = Vec::new();
    sections.push(BrowserSection::Search);
    sections.push(BrowserSection::Playlists);
    sections.push(BrowserSection::Albums);
    sections.push(BrowserSection::Artists);
    sections.push(BrowserSection::Recommendations);
    assert(sections@ =~= default_sections());
    sections
}

fn parse_sections(names: &[String]) -> (sections: Vec<BrowserSection>)
    ensures
        sections@ == named_sections(texts(names@)),
{
    let mut sections: Vec<BrowserSection> = Vec::new();
    let mut n: usize = 0;
    let ghost all = texts(names@);
    assert(all.take(0) =~= Seq::<Seq<char>>::empty());
    while n < names.len()
        invariant
            n <= names@.len(),
            all == texts(names@),
            sections@ == named_sections(all.take(n as int)),
        decreases names@.len() - n,
    {
        assert(all.take(n + 1).drop_last() =~= all.take(n as int));
        assert(all.take(n + 1).last() == names@[n as int]@);
        if let Some(section) = BrowserSection::parse(names[n].as_str()) {
            sections.push(section);
        }
        n += 1;
    }
    assert(all.take(n as int) =~= all);
    sections
}

fn has_section(sections: &[BrowserSection], section: BrowserSection) -> (yes: bool)
    ensures
        yes == sections@.contains(section),
{
    let mut i: usize = 0;
    while i < sections.len()
        invariant
            i <= sections@.len(),
            forall|j: int| 0 <= j < i ==> sections@[j] != section,
        decreases sections@.len() - i,
    {
        if sections[i] == section {
            return true;
        }
        i += 1;
    }
    false
}

fn find_list(sections: &[BrowserSection]) -> (found: Option<BrowserSection>)
    ensures
        found == first_list(sections@),
{
    let mut i: usize = 0;
    assert(sections@.skip(0) =~= sections@);
    while i < sections.len()
        invariant
            i <= sections@.len(),
            first_list(sections@.skip(i as int)) == first_list(sections@),
        decreases sections@.len() - i,
    {
        assert(sections@.skip(i as int)[0] == sections@[i as int]);
        if sections[i] != BrowserSection::Search {
            return Some(sections[i]);
        }
        assert(sections@.skip(i as int).skip(1) =~= sections@.skip(i + 1));
        i += 1;
    }
    assert(sections@.skip(i as int) =~= Seq::<BrowserSection>::empty());
    None
}

// The order of the lists

/// A name in lower case, and where it stands.
pub ghost struct NamedView {
    pub lower: Seq<char>,
    pub index: int,
}

struct Named {
    lower: Vec<char>,
    index: usize,
}

impl Ranked for Named {
    closed spec fn ranks(self, other: Named) -> bool {
        in_order(self.lower@, other.lower@)
    }

    fn ranks_before_or_with(&self, other: &Named) -> (yes: bool) {
        are_in_order(&self.lower, &other.lower)
    }
}

/// Names by their lower-case equivalents.
pub open spec fn rank_names() -> spec_fn(NamedView, NamedView) -> bool {
    |a: NamedView, b: NamedView| in_order(a.lower, b.lower)
}

/// The names in lower case, each with its place.
pub open spec fn named(names: Seq<Seq<char>>) -> Seq<NamedView> {
    Seq::new(names.len(), |i: int| NamedView { lower: lowercase(names[i]), index: i })
}

/// The places of the names in the order of their lower-case equivalents. Names whose equivalents
/// are the same stay in the order in which they stand.
pub open spec fn order_by_name(names: Seq<Seq<char>>) -> Seq<int> {
    stable_sort(named(names), rank_names()).map_values(|n: NamedView| n.index)
}

fn sorted_by_name(names: &[String]) -> (order: Vec<usize>)
    ensures
        order@.map_values(|i: usize| i as int) == order_by_name(texts(names@)),
{
    let ghost view = |n: Named| NamedView { lower: n.lower@, index: n.index as int };
    let ghost all = named(texts(names@));
    let mut items: Vec<Named> = Vec::new();
    let mut n: usize = 0;
    assert(items@.map_values(view) =~= all.take(0));
    while n < names.len()
        invariant
            n <= names@.len(),
            view == (|n: Named| NamedView { lower: n.lower@, index: n.index as int }),
            all == named(texts(names@)),
            items@.map_values(view) == all.take(n as int),
        decreases names@.len() - n,
    {
        let ghost before = items@;
        let item = Named { lower: chars_of(names[n].to_lowercase().as_str()), index: n };
        items.push(item);
        assert(items@.map_values(view) =~= before.map_values(view).push(view(item)));
        assert(all.take(n + 1) =~= all.take(n as int).push(all[n as int]));
        n += 1;
    }
    assert(all.take(n as int) =~= all);
    let ghost unsorted = items@;
    let sorted = sort(items);
    proof {
        lemma_sort_of_views(unsorted, view, |a: Named, b: Named| a.ranks(b), rank_names());
    }
    let mut order: Vec<usize> = Vec::new();
    let mut k: usize = 0;
    while k < sorted.len()
        invariant
            k <= sorted@.len(),
            order@.len() == k,
            forall|j: int| 0 <= j < k ==> (#[trigger] order@[j]) == sorted@[j].index,
        decreases sorted@.len() - k,
    {
        order.push(sorted[k].index);
        k += 1;
    }
    assert(order@.map_values(|i: usize| i as int) =~= sorted@.map_values(view).map_values(
        |n: NamedView| n.index,
    ));
    order
}

/// The order by name puts the names in order, and loses and adds none.
pub proof fn lemma_order_by_name(names: Seq<Seq<char>>)
    ensures
        ({
            let sorted = stable_sort(named(names), rank_names());
            &&& is_sorted(sorted, rank_names())
            &&& sorted.to_multiset() == named(names).to_multiset()
            &&& order_by_name(names).len() == names.len()
        }),
{
    let rank = rank_names();
    assert(is_total_order(rank)) by {
        assert forall|a: NamedView, b: NamedView| #[trigger] rank(a, b) || rank(b, a) by {
            lemma_in_order_is_total(a.lower, b.lower);
        }
        assert forall|a: NamedView, b: NamedView, c: NamedView| #[trigger]
            rank(a, b) && #[trigger] rank(b, c) implies rank(a, c) by {
            lemma_in_order_is_transitive(a.lower, b.lower, c.lower);
        }
    }
    lemma_stable_sort(named(names), rank);
}

// Recommendations

/// How many tracks the recommendations are based on.
pub const SEEDS: usize = 5;

/// `IteratorRandom::sample` takes as many items at random as are asked for, each at most once; all
/// of them where there are not as many.
#[verifier::external_body]
pub(crate) fn sample(ids: Vec<String>, amount: usize) -> (sampled: Vec<String>)
    ensures
        sampled@.len() == min(amount as int, ids@.len() as int),
        texts(sampled@).to_multiset().subset_of(texts(ids@).to_multiset()),
{
    ids.into_iter().sample(&mut rand::rng(), amount)
}

/// The ids of those of the first `n` tracks that have one.
pub open spec fn ids_of(ids: Seq<Option<String>>, n: nat) -> Seq<Seq<char>>
    decreases n,
{
    if n == 0 {
        Seq::empty()
    } else {
        match ids[n - 1] {
            Some(id) => ids_of(ids, (n - 1) as nat).push(id@),
            None => ids_of(ids, (n - 1) as nat),
        }
    }
}

/// The tracks that the recommendations are based on: some of the saved ones, at random. Nothing
/// where no saved track has an id; then there are no recommendations either.
pub fn recommendation_seeds(saved: &[Option<String>]) -> (seeds: Option<Vec<String>>)
    ensures
        ({
            let ids = ids_of(saved@, saved@.len());
            match seeds {
                None => ids.len() == 0,
                Some(seeds) => {
                    &&& ids.len() > 0
                    &&& seeds@.len() == min(SEEDS as int, ids.len() as int)
                    &&& texts(seeds@).to_multiset().subset_of(ids.to_multiset())
                },
            }
        }),
{
    let mut ids: Vec<String> = Vec::new();
    let mut n: usize = 0;
    assert(texts(ids@) =~= Seq::<Seq<char>>::empty());
    while n < saved.len()
        invariant
            n <= saved@.len(),
            texts(ids@) == ids_of(saved@, n as nat),
        decreases saved@.len() - n,
    {
        let ghost before = ids@;
        if let Some(id) = &saved[n] {
            let id = id.clone();
            ids.push(id);
            assert(texts(ids@) =~= texts(before).push(id@));
        }
        n += 1;
    }
    let seeds = sample(ids, SEEDS);
    if seeds.len() == 0 {
        None
    } else {
        Some(seeds)
    }
}

// The view

/// The views that a section can show.
#[derive(Clone, Copy, Debug, PartialEq, Eq, Structural)]
pub enum SectionView {
    Playlists,
    Albums,
    Artists,
    Recommendations,
    SearchResults,
}

/// The search in the pane: a query, and whether there are results.
#[derive(Clone, Debug)]
pub struct SearchBox {
    pub input: String,
    /// Whether what is typed goes to the query.
    pub active: bool,
    pub has_results: bool,
}

/// A [`SearchBox`] with its query as a sequence of characters.
pub ghost struct SearchModel {
    pub input: Seq<char>,
    pub active: bool,
    pub has_results: bool,
}

impl View for SearchBox {
    type V = SearchModel;

    open spec fn view(&self) -> SearchModel {
        SearchModel {
            input: self.input@,
            active: self.active,
            has_results: self.has_results,
        }
    }
}

pub struct BrowserView {
    pub section: BrowserSection,
    pub sections: Vec<BrowserSection>,
    pub playlists: ListView,
    pub albums: ListView,
    pub artists: ListView,
    pub recommendations: TrackListView,
    /// Recommendations are fetched on the first visit.
    pub recommendations_loaded: bool,
    pub search: SearchBox,
    /// The place of the pane on the screen, used to open the menu below the centred title.
    pub last_offset: Vec2,
    pub last_content_w: usize,
}

/// The orders of the three lists, where they are sorted by name.
pub struct SectionOrders {
    pub playlists: Vec<usize>,
    pub albums: Vec<usize>,
    pub artists: Vec<usize>,
}

/// What the pane makes of an event.
#[derive(Clone, Debug)]
pub enum BrowserEvent {
    Ignored,
    Consumed,
    /// Show the results for this query.
    Search(String),
    /// The event goes to the view of a section.
    Forward(SectionView, Event),
}

/// What the pane makes of a command.
#[derive(Clone, Copy, Debug, PartialEq, Eq, Structural)]
pub enum BrowserCommand {
    /// Open the dropdown menu.
    OpenDropdown,
    /// Open an item of a list. Where it does not open, the command goes to the list.
    OpenItem(SectionView, usize),
    /// The command goes to the view of a section.
    Forward(SectionView),
}

/// What the pane paints: strokes, and a view inside it with its place and size.
pub struct BrowserDrawing {
    pub frame: Frame,
    pub inner: Option<(SectionView, Vec2, Vec2)>,
}

/// The view that a section shows. The search has none before its first results; events then go to
/// the playlists.
pub open spec fn shown_view(section: BrowserSection, has_results: bool) -> SectionView {
    match section {
        BrowserSection::Playlists => SectionView::Playlists,
        BrowserSection::Albums => SectionView::Albums,
        BrowserSection::Artists => SectionView::Artists,
        BrowserSection::Recommendations => SectionView::Recommendations,
        BrowserSection::Search => if has_results {
            SectionView::SearchResults
        } else {
            SectionView::Playlists
        },
    }
}

/// What comes of an event in the search section: the search after it, and what the pane makes of
/// it.
pub open spec fn search_event(search: SearchModel, event: Event) -> (
    SearchModel,
    SearchOutcome,
) {
    if search.active {
        match event {
            Event::Char(c) => (
                SearchModel { input: search.input.push(c), ..search },
                SearchOutcome::Consumed,
            ),
            Event::Key(Key::Backspace) => (
                SearchModel {
                    input: if search.input.len() > 0 {
                        search.input.drop_last()
                    } else {
                        search.input
                    },
                    ..search
                },
                SearchOutcome::Consumed,
            ),
            Event::Key(Key::Enter) => if search.input.len() == 0 {
                (SearchModel { active: false, ..search }, SearchOutcome::Consumed)
            } else {
                (
                    SearchModel { active: false, has_results: true, ..search },
                    SearchOutcome::Search,
                )
            },
            Event::Key(Key::Esc) => (
                SearchModel { active: false, ..search },
                SearchOutcome::Consumed,
            ),
            _ => (search, SearchOutcome::Ignored),
        }
    } else {
        match event {
            Event::Char('/') => (SearchModel { active: true, ..search }, SearchOutcome::Consumed),
            Event::Mouse { offset, position, event: mouse } => if mouse == MouseEvent::Press(
                MouseButton::Left,
            ) && local_position(position, offset).y == 0 {
                (SearchModel { active: true, ..search }, SearchOutcome::Consumed)
            } else if search.has_results {
                (search, SearchOutcome::Forward(event.shifted(Vec2 { x: 0, y: 1 })))
            } else {
                (search, SearchOutcome::Ignored)
            },
            _ => if search.has_results {
                (search, SearchOutcome::Forward(event))
            } else {
                (search, SearchOutcome::Ignored)
            },
        }
    }
}

/// What the search makes of an event.
pub ghost enum SearchOutcome {
    Ignored,
    Consumed,
    Search,
    Forward(Event),
}

/// What the input row of the search shows.
pub open spec fn input_text(search: SearchModel) -> Seq<char> {
    if search.input.len() == 0 && !search.active {
        "Search…"@
    } else if search.active {
        search.input + "▏"@
    } else {
        search.input
    }
}

/// The strokes of the input row.
pub open spec fn input_strokes(search: SearchModel, columns: int) -> Seq<StrokeView> {
    let style = if search.active {
        highlight_style()
    } else {
        secondary_style()
    };
    seq![blank_at(0, 0, columns, style), text_at(0, 0, input_text(search), style)]
}

/// The position of a section in the menu, or the first.
pub open spec fn menu_position(sections: Seq<BrowserSection>, section: BrowserSection) -> int
    decreases sections.len(),
{
    if sections.len() == 0 {
        0
    } else if sections[0] == section {
        0
    } else if sections.skip(1).contains(section) {
        1 + menu_position(sections.skip(1), section)
    } else {
        0
    }
}

impl SearchBox {
    fn submit(&mut self) -> (query: Option<String>)
        ensures
            match query {
                Some(query) => {
                    &&& old(self)@.input.len() > 0
                    &&& query@ == old(self)@.input
                    &&& final(self)@ == (SearchModel {
                        active: false,
                        has_results: true,
                        ..old(self)@
                    })
                },
                None => {
                    &&& old(self)@.input.len() == 0
                    &&& final(self)@ == (SearchModel { active: false, ..old(self)@ })
                },
            },
    {
        self.active = false;
        let chars = chars_of(self.input.as_str());
        if chars.len() == 0 {
            return None;
        }
        self.has_results = true;
        Some(self.input.clone())
    }

    fn erase(&mut self)
        ensures
            final(self)@ == (SearchModel {
                input: if old(self)@.input.len() > 0 {
                    old(self)@.input.drop_last()
                } else {
                    old(self)@.input
                },
                ..old(self)@
            }),
    {
        let chars = chars_of(self.input.as_str());
        if chars.len() > 0 {
            let n: usize = chars.len() - 1;
            assert(chars@.subrange(0, n as int) =~= chars@.drop_last());
            self.input = string_of(&chars.as_slice()[0..n]);
        }
    }

    /// What the search makes of an event.
    pub fn on_event(&mut self, event: Event) -> (result: BrowserEvent)
        requires
            event.can_shift(Vec2 { x: 0, y: 1 }),
        ensures
            final(self)@ == search_event(old(self)@, event).0,
            match search_event(old(self)@, event).1 {
                SearchOutcome::Ignored => result is Ignored,
                SearchOutcome::Consumed => result is Consumed,
                SearchOutcome::Search => result matches BrowserEvent::Search(query) && query@
                    == old(self)@.input,
                SearchOutcome::Forward(inner) => result == BrowserEvent::Forward(
                    SectionView::SearchResults,
                    inner,
                ),
            },
    {
        if self.active {
            return match event {
                Event::Char(c) => {
                    self.input.push(c);
                    BrowserEvent::Consumed
                },
                Event::Key(Key::Backspace) => {
                    self.erase();
                    BrowserEvent::Consumed
                },
                Event::Key(Key::Enter) => match self.submit() {
                    Some(query) => BrowserEvent::Search(query),
                    None => BrowserEvent::Consumed,
                },
                Event::Key(Key::Esc) => {
                    self.active = false;
                    BrowserEvent::Consumed
                },
                _ => BrowserEvent::Ignored,
            };
        }
        match event {
            Event::Char('/') => {
                self.active = true;
                BrowserEvent::Consumed
            },
            Event::Mouse { offset, position, event: mouse } => {
                if mouse == MouseEvent::Press(MouseButton::Left) && local(position, offset).y == 0 {
                    self.active = true;
                    BrowserEvent::Consumed
                } else if self.has_results {
                    let inner = event.relativized(Vec2 { x: 0, y: 1 });
                    BrowserEvent::Forward(SectionView::SearchResults, inner)
                } else {
                    BrowserEvent::Ignored
                }
            },
            _ => if self.has_results {
                BrowserEvent::Forward(SectionView::SearchResults, event)
            } else {
                BrowserEvent::Ignored
            },
        }
    }

    fn draw(&self, columns: usize) -> (frame: Frame)
        ensures
            frame@ == input_strokes(self@, columns as int),
    {
        let style = if self.active {
            Style::highlight()
        } else {
            Style::secondary()
        };
        let mut frame = Frame::new();
        frame.blank(0, 0, columns, style);
        let chars = chars_of(self.input.as_str());
        if chars.len() == 0 && !self.active {
            frame.print(0, 0, "Search…", style);
        } else if self.active {
            let text = concat(self.input.as_str(), "▏");
            frame.print(0, 0, text.as_str(), style);
        } else {
            frame.print(0, 0, self.input.as_str(), style);
        }
        assert(frame@ =~= input_strokes(self@, columns as int));
        frame
    }
}

/// A list that was just made.
pub open spec fn fresh_list(list: ListView, images: bool) -> bool {
    &&& list.wf()
    &&& list.last_content_len == 0
    &&& list.selected == 0
    &&& list.search_query@ == Seq::<char>::empty()
    &&& list.search_indexes@ == Seq::<usize>::empty()
    &&& list.search_selected_index == 0
    &&& list.last_size == (Vec2 { x: 0, y: 0 })
    &&& fresh_core(list.scroller)
    &&& list.title@ == Seq::<char>::empty()
    &&& list.images == images
    &&& list.slots.list().len() == 0
    &&& list.slots.follows() == SlotRule::Twice
    &&& !list.plays_through
}

/// An empty list of tracks that was just made.
pub open spec fn fresh_tracks(list: TrackListView, title: Seq<char>, images: bool) -> bool {
    &&& list.title@ == title
    &&& list.sort_context is None
    &&& list.filter@ == Seq::<char>::empty()
    &&& !list.filter_active
    &&& list.filtered@ == Seq::<usize>::empty()
    &&& list.last_content_len == 0
    &&& list.selected == 0
    &&& list.scroll_top == 0
    &&& list.last_size == (Vec2 { x: 0, y: 0 })
    &&& list.images == images
    &&& list.slots.list().len() == 0
    &&& list.slots.follows() == SlotRule::Once
}

fn new_list(pagination: Pagination, images: bool, len: usize) -> (result: (ListView, bool))
    ensures
        fresh_list(result.0, images),
        result.0.pagination == pagination,
        result.1 == should_paginate(result.0, len as int),
{
    let (list, more) = ListView::new(pagination, false, len);
    let list = list.with_thumbnails(images);
    (list, more)
}

impl BrowserView {
    /// There is a menu, and the place of the pane can be counted.
    pub open spec fn wf(self) -> bool {
        &&& self.sections@.len() > 0
        &&& self.last_offset.x + self.last_content_w <= usize::MAX
    }

    /// The same lists, but for their slots.
    pub open spec fn same_lists(self, before: BrowserView) -> bool {
        &&& self.playlists == (ListView { slots: self.playlists.slots, ..before.playlists })
        &&& self.albums == (ListView { slots: self.albums.slots, ..before.albums })
        &&& self.artists == before.artists
        &&& self.recommendations == before.recommendations
    }

    /// The pane with the sections of the configuration, and the orders of the lists where they
    /// are sorted by name. The playlists and the albums have thumbnails, as far as those can be
    /// shown. `pagination` is that of a list that is loaded completely.
    pub fn new(
        values: &ConfigValues,
        playlists: &[String],
        albums: &[String],
        artists: &[String],
        images: bool,
        pagination: Pagination,
    ) -> (result: (BrowserView, Option<SectionOrders>))
        ensures
            result.0.wf(),
            result.0.sections@ == configured_sections(*values),
            result.0.section == start_section(*values),
            result.0.sections@.contains(result.0.section),
            fresh_list(result.0.playlists, images),
            fresh_list(result.0.albums, images),
            fresh_list(result.0.artists, false),
            result.0.playlists.pagination == pagination,
            result.0.albums.pagination == pagination,
            result.0.artists.pagination == pagination,
            fresh_tracks(result.0.recommendations, "Recommendations"@, images),
            !result.0.recommendations_loaded,
            result.0.search@ == (SearchModel {
                input: Seq::empty(),
                active: false,
                has_results: false,
            }),
            result.0.last_offset == (Vec2 { x: 0, y: 0 }),
            result.0.last_content_w == 0,
            match result.1 {
                None => !sorts_by_name(*values),
                Some(orders) => {
                    &&& sorts_by_name(*values)
                    &&& orders.playlists@.map_values(|i: usize| i as int) == order_by_name(
                        texts(playlists@),
                    )
                    &&& orders.albums@.map_values(|i: usize| i as int) == order_by_name(
                        texts(albums@),
                    )
                    &&& orders.artists@.map_values(|i: usize| i as int) == order_by_name(
                        texts(artists@),
                    )
                },
            },
    {
        let options = match &values.layout {
            Some(layout) => &layout.browser,
            None => &None,
        };
        let sections = match options {
            Some(options) => match &options.sections {
                Some(names) => parse_sections(names.as_slice()),
                None => Vec::new(),
            },
            None => Vec::new(),
        };
        let sections = if sections.len() > 0 {
            sections
        } else {
            default_section_list()
        };
        assert(sections@ == configured_sections(*values));
        let named = match options {
            Some(options) => match &options.default_section {
                Some(name) => BrowserSection::parse(name.as_str()),
                None => None,
            },
            None => None,
        };
        let wanted = match named {
            Some(section) => if has_section(&sections, section) {
                Some(section)
            } else {
                None
            },
            None => None,
        };
        let section = match wanted {
            Some(section) => section,
            None => match find_list(&sections) {
                Some(section) => section,
                None => sections[0],
            },
        };
        assert(section == start_section(*values));
        proof {
            lemma_first_list(sections@);
            assert(sections@.contains(sections@[0]));
        }
        let sort_by_name = match options {
            Some(options) => match &options.sort {
                Some(sort) => same_text(sort.as_str(), "name"),
                None => false,
            },
            None => false,
        };
        let orders = if sort_by_name {
            Some(
                SectionOrders {
                    playlists: sorted_by_name(playlists),
                    albums: sorted_by_name(albums),
                    artists: sorted_by_name(artists),
                },
            )
        } else {
            None
        };
        let (playlists_list, _) = new_list(pagination, images, playlists.len());
        let (albums_list, _) = new_list(pagination, images, albums.len());
        let (artists_list, _) = new_list(pagination, false, artists.len());
        let none: Vec<super::tracklist::TrackRow> = Vec::new();
        let recommendations = TrackListView::new(none.as_slice(), images).with_title(
            "Recommendations",
        );
        let input = String::new();
        assert(input@ =~= Seq::<char>::empty());
        let view = BrowserView {
            section,
            sections,
            playlists: playlists_list,
            albums: albums_list,
            artists: artists_list,
            recommendations,
            recommendations_loaded: false,
            search: SearchBox { input, active: false, has_results: false },
            last_offset: Vec2 { x: 0, y: 0 },
            last_content_w: 0,
        };
        (view, orders)
    }

    /// Clears what the lists know of their thumbnails: all section lists share the same terminal
    /// area, and another view may have drawn over it. The next draw emits all thumbnails again.
    pub fn on_resume(&mut self)
        ensures
            final(self).same_lists(*old(self)),
            final(self).playlists.slots.list().len() == 0,
            final(self).playlists.slots.follows() == old(self).playlists.slots.follows(),
            final(self).albums.slots.list().len() == 0,
            final(self).albums.slots.follows() == old(self).albums.slots.follows(),
            *final(self) == (BrowserView {
                playlists: final(self).playlists,
                albums: final(self).albums,
                ..*old(self)
            }),
    {
        self.playlists.invalidate_slots();
        self.albums.invalidate_slots();
    }

    /// Switches to a section. The screen has to be drawn anew; tells whether recommendations have
    /// to be fetched.
    pub fn set_section(&mut self, section: BrowserSection) -> (fetch: bool)
        ensures
            final(self).same_lists(*old(self)),
            final(self).playlists.slots.list().len() == 0,
            final(self).playlists.slots.follows() == old(self).playlists.slots.follows(),
            final(self).albums.slots.list().len() == 0,
            final(self).albums.slots.follows() == old(self).albums.slots.follows(),
            fetch == (section == BrowserSection::Recommendations && !old(
                self,
            ).recommendations_loaded),
            final(self).search@ == (SearchModel {
                active: old(self).search@.active || section == BrowserSection::Search,
                ..old(self).search@
            }),
            *final(self) == (BrowserView {
                section,
                playlists: final(self).playlists,
                albums: final(self).albums,
                recommendations_loaded: old(self).recommendations_loaded || section
                    == BrowserSection::Recommendations,
                search: final(self).search,
                ..*old(self)
            }),
    {
        self.on_resume();
        self.section = section;
        if section == BrowserSection::Search {
            self.search.active = true;
        }
        if section == BrowserSection::Recommendations && !self.recommendations_loaded {
            self.recommendations_loaded = true;
            return true;
        }
        false
    }

    pub fn title(&self) -> (title: &'static str)
        ensures
            title@ == section_title(self.section),
    {
        self.section.label()
    }

    /// The view of the active section.
    pub fn section_view(&self) -> (view: SectionView)
        ensures
            view == shown_view(self.section, self.search.has_results),
    {
        match self.section {
            BrowserSection::Playlists => SectionView::Playlists,
            BrowserSection::Albums => SectionView::Albums,
            BrowserSection::Artists => SectionView::Artists,
            BrowserSection::Recommendations => SectionView::Recommendations,
            BrowserSection::Search => if self.search.has_results {
                SectionView::SearchResults
            } else {
                SectionView::Playlists
            },
        }
    }

    /// The list whose selected item a command can open, and the item's place, given how many
    /// playlists, albums and artists there are.
    pub open spec fn selected_item(self, playlists: int, albums: int, artists: int) -> Option<
        (SectionView, usize),
    > {
        match self.section {
            BrowserSection::Playlists => if self.playlists.selected < playlists {
                Some((SectionView::Playlists, self.playlists.selected))
            } else {
                None
            },
            BrowserSection::Albums => if self.albums.selected < albums {
                Some((SectionView::Albums, self.albums.selected))
            } else {
                None
            },
            BrowserSection::Artists => if self.artists.selected < artists {
                Some((SectionView::Artists, self.artists.selected))
            } else {
                None
            },
            _ => None,
        }
    }

    /// The selected item, if it is one that can be opened.
    pub fn open_selected(&self, playlists: usize, albums: usize, artists: usize) -> (item: Option<
        (SectionView, usize),
    >)
        ensures
            item == self.selected_item(playlists as int, albums as int, artists as int),
    {
        let (view, index, len): (SectionView, usize, usize) = match self.section {
            BrowserSection::Playlists => (
                SectionView::Playlists,
                self.playlists.get_selected_index(),
                playlists,
            ),
            BrowserSection::Albums => (
                SectionView::Albums,
                self.albums.get_selected_index(),
                albums,
            ),
            BrowserSection::Artists => (
                SectionView::Artists,
                self.artists.get_selected_index(),
                artists,
            ),
            _ => {
                return None;
            },
        };
        if index < len {
            Some((view, index))
        } else {
            None
        }
    }

    /// The dropdown menu that switches between the sections, below the title of the pane.
    pub fn open_dropdown(&self, values: &ConfigValues) -> (dropdown: Dropdown<BrowserSection>)
        requires
            self.wf(),
        ensures
            dropdown.anchor.x == title_start(
                self.last_offset.x as int,
                self.last_content_w as int,
                section_title(self.section),
            ),
            dropdown.anchor.y == self.last_offset.y,
            dropdown.menu.labels() == self.sections@.map_values(
                |section: BrowserSection|
                    choice_label(icon_text(*values, section_icon(section)), section_title(section)),
            ),
            dropdown.menu.choices() == self.sections@,
            dropdown.menu.focused() == menu_position(self.sections@, self.section),
            self.sections@.contains(self.section) ==> self.sections@[dropdown.menu.focused()]
                == self.section,
    {
        let anchor = anchor_below(self.last_offset, self.last_content_w, self.section.label());
        let ghost label = |section: BrowserSection|
            choice_label(icon_text(*values, section_icon(section)), section_title(section));
        let mut items: Vec<(String, BrowserSection)> = Vec::new();
        let mut focus: usize = 0;
        let mut found = false;
        let mut n: usize = 0;
        assert(self.sections@.skip(0) =~= self.sections@);
        while n < self.sections.len()
            invariant
                n <= self.sections@.len(),
                label == (|section: BrowserSection|
                    choice_label(
                        icon_text(*values, section_icon(section)),
                        section_title(section),
                    )),
                items@.len() == n,
                forall|i: int|
                    0 <= i < n ==> (#[trigger] items@[i]).0@ == label(self.sections@[i])
                        && items@[i].1 == self.sections@[i],
                found ==> focus < n && self.sections@[focus as int] == self.section && (forall|
                    j: int,
                |
                    0 <= j < focus ==> self.sections@[j] != self.section),
                !found ==> focus == 0 && forall|j: int|
                    0 <= j < n ==> self.sections@[j] != self.section,
            decreases self.sections@.len() - n,
        {
            let section = self.sections[n];
            let icon = values.icon(section.icon());
            items.push((label_choice(icon.as_str(), section.label()), section));
            if !found && section == self.section {
                found = true;
                focus = n;
            }
            n += 1;
        }
        proof {
            lemma_menu_position(self.sections@, self.section, focus as int, found);
        }
        assert(items@.map_values(|item: (String, BrowserSection)| item.0@)
            =~= self.sections@.map_values(label));
        assert(items@.map_values(|item: (String, BrowserSection)| item.1) =~= self.sections@);
        let menu = PaneDropdownMenu::new(items).with_focus(focus);
        Dropdown { anchor, menu }
    }

    /// Draws the pane: the view of the section, or the input row of the search with the results
    /// below.
    pub fn draw(&mut self, offset: Vec2, size: Vec2) -> (drawing: BrowserDrawing)
        requires
            old(self).wf(),
            offset.x + size.x <= usize::MAX,
            offset.y < usize::MAX,
        ensures
            final(self).wf(),
            *final(self) == (BrowserView {
                last_offset: offset,
                last_content_w: size.x,
                ..*old(self)
            }),
            if old(self).section == BrowserSection::Search {
                &&& drawing.frame@ == input_strokes(old(self).search@, size.x as int)
                &&& drawing.inner == if old(self).search.has_results {
                    Some(
                        (
                            SectionView::SearchResults,
                            Vec2 { x: offset.x, y: (offset.y + 1) as usize },
                            Vec2 { x: size.x, y: monus(size.y as int, 1) as usize },
                        ),
                    )
                } else {
                    None
                }
            } else {
                &&& drawing.frame@ == Seq::<StrokeView>::empty()
                &&& drawing.inner == Some(
                    (shown_view(old(self).section, old(self).search.has_results), offset, size),
                )
            },
    {
        self.last_offset = offset;
        self.last_content_w = size.x;
        if self.section == BrowserSection::Search {
            let frame = self.search.draw(size.x);
            let inner = if self.search.has_results {
                Some(
                    (
                        SectionView::SearchResults,
                        Vec2 { x: offset.x, y: offset.y + 1 },
                        Vec2 { x: size.x, y: less(size.y, 1) },
                    ),
                )
            } else {
                None
            };
            BrowserDrawing { frame, inner }
        } else {
            BrowserDrawing {
                frame: Frame::new(),
                inner: Some((self.section_view(), offset, size)),
            }
        }
    }

    /// The view that is laid out, and its size.
    pub fn layout(&self, size: Vec2) -> (inner: Option<(SectionView, Vec2)>)
        ensures
            inner == if self.section == BrowserSection::Search {
                if self.search.has_results {
                    Some(
                        (
                            SectionView::SearchResults,
                            Vec2 { x: size.x, y: monus(size.y as int, 1) as usize },
                        ),
                    )
                } else {
                    None
                }
            } else {
                Some((shown_view(self.section, self.search.has_results), size))
            },
    {
        if self.section == BrowserSection::Search {
            if self.search.has_results {
                Some((SectionView::SearchResults, Vec2 { x: size.x, y: less(size.y, 1) }))
            } else {
                None
            }
        } else {
            Some((self.section_view(), size))
        }
    }

    /// What the pane makes of an event.
    pub fn on_event(&mut self, event: Event) -> (result: BrowserEvent)
        requires
            event.can_shift(Vec2 { x: 0, y: 1 }),
        ensures
            *final(self) == (BrowserView { search: final(self).search, ..*old(self) }),
            if old(self).section == BrowserSection::Search {
                &&& final(self).search@ == search_event(old(self).search@, event).0
                &&& match search_event(old(self).search@, event).1 {
                    SearchOutcome::Ignored => result is Ignored,
                    SearchOutcome::Consumed => result is Consumed,
                    SearchOutcome::Search => result matches BrowserEvent::Search(query) && query@
                        == old(self).search@.input,
                    SearchOutcome::Forward(inner) => result == BrowserEvent::Forward(
                        SectionView::SearchResults,
                        inner,
                    ),
                }
            } else {
                &&& final(self).search == old(self).search
                &&& result == BrowserEvent::Forward(
                    shown_view(old(self).section, old(self).search.has_results),
                    event,
                )
            },
    {
        if self.section == BrowserSection::Search {
            self.search.on_event(event)
        } else {
            BrowserEvent::Forward(self.section_view(), event)
        }
    }

    /// What the pane makes of a command, given how many playlists, albums and artists there are.
    pub fn on_command(&self, command: &Command, playlists: usize, albums: usize, artists: usize) -> (
    result: BrowserCommand)
        ensures
            result == match *command {
                Command::Open(TargetMode::Current) => BrowserCommand::OpenDropdown,
                Command::Open(TargetMode::Selected) => match self.selected_item(
                    playlists as int,
                    albums as int,
                    artists as int,
                ) {
                    Some((view, index)) => BrowserCommand::OpenItem(view, index),
                    None => BrowserCommand::Forward(
                        shown_view(self.section, self.search.has_results),
                    ),
                },
                _ => BrowserCommand::Forward(shown_view(self.section, self.search.has_results)),
            },
    {
        match command {
            Command::Open(TargetMode::Current) => BrowserCommand::OpenDropdown,
            Command::Open(TargetMode::Selected) => match self.open_selected(
                playlists,
                albums,
                artists,
            ) {
                Some((view, index)) => BrowserCommand::OpenItem(view, index),
                None => BrowserCommand::Forward(self.section_view()),
            },
            _ => BrowserCommand::Forward(self.section_view()),
        }
    }
}

proof fn lemma_first_list(sections: Seq<BrowserSection>)
    ensures
        first_list(sections) is Some ==> sections.contains(first_list(sections)->0),
    decreases sections.len(),
{
    if sections.len() > 0 {
        if sections[0] == BrowserSection::Search {
            let rest = sections.skip(1);
            lemma_first_list(rest);
            if first_list(rest) is Some {
                let i = choose|i: int| 0 <= i < rest.len() && rest[i] == first_list(rest)->0;
                assert(sections[i + 1] == rest[i]);
            }
        } else {
            assert(sections.contains(sections[0]));
        }
    }
}

proof fn lemma_menu_position(
    sections: Seq<BrowserSection>,
    section: BrowserSection,
    at: int,
    found: bool,
)
    requires
        found ==> 0 <= at < sections.len() && sections[at] == section && forall|j: int|
            0 <= j < at ==> sections[j] != section,
        !found ==> at == 0 && forall|j: int|
            0 <= j < sections.len() ==> sections[j] != section,
    ensures
        menu_position(sections, section) == at,
    decreases sections.len(),
{
    if sections.len() > 0 && sections[0] != section {
        let rest = sections.skip(1);
        if found {
            assert(rest[at - 1] == section);
            assert forall|j: int| 0 <= j < at - 1 implies rest[j] != section by {
                assert(rest[j] == sections[j + 1]);
            }
            lemma_menu_position(rest, section, at - 1, true);
        } else {
            assert forall|j: int| 0 <= j < rest.len() implies rest[j] != section by {
                assert(rest[j] == sections[j + 1]);
            }
        }
    }
}

/// What was typed can be taken back character by character.
pub proof fn lemma_backspace_undoes_typing(search: SearchModel, c: char)
    requires
        search.active,
    ensures
        ({
            let typed = search_event(search, Event::Char(c)).0;
            search_event(typed, Event::Key(Key::Backspace)).0 == search
        }),
{
    assert(search.input.push(c).drop_last() =~= search.input);
}

/// The pane starts with a section of its menu.
pub proof fn lemma_start_section_is_in_the_menu(values: ConfigValues)
    ensures
        configured_sections(values).len() > 0,
        configured_sections(values).contains(start_section(values)),
{
    let sections = configured_sections(values);
    lemma_first_list(sections);
    assert(sections.contains(sections[0]));
}

/// A character in lower case, as far as it is an ASCII letter.
pub open spec fn small_letter(c: char) -> char {
    if 'A' <= c <= 'Z' {
        (c as int + 32) as char
    } else {
        c
    }
}

/// The configuration means a section by its title in small letters.
pub proof fn lemma_sections_are_named_by_their_titles(section: BrowserSection)
    ensures
        section_named(section_title(section).map_values(|c: char| small_letter(c))) == Some(
            section,
        ),
{
    reveal_strlit("Search");
    reveal_strlit("Playlists");
    reveal_strlit("Albums");
    reveal_strlit("Artists");
    reveal_strlit("Recommendations");
    reveal_strlit("search");
    reveal_strlit("playlists");
    reveal_strlit("albums");
    reveal_strlit("artists");
    reveal_strlit("recommendations");
    let name = section_title(section).map_values(|c: char| small_letter(c));
    let expected = match section {
        BrowserSection::Search => "search"@,
        BrowserSection::Playlists => "playlists"@,
        BrowserSection::Albums => "albums"@,
        BrowserSection::Artists => "artists"@,
        BrowserSection::Recommendations => "recommendations"@,
    };
    assert(name =~= expected);
    assert("search"@ != "albums"@) by {
        assert("search"@[0] != "albums"@[0]);
    }
    assert("albums"@.len() == 6 && "artists"@.len() == 7 && "playlists"@.len() == 9
        && "recommendations"@.len() == 15);
}

/// A name adds its section to the menu, behind those of the names before it; an unknown name adds
/// none.
pub proof fn lemma_names_add_their_sections(names: Seq<Seq<char>>, name: Seq<char>)
    ensures
        section_named(name) is Some ==> named_sections(names.push(name)) == named_sections(
            names,
        ).push(section_named(name)->0),
        section_named(name) is None ==> named_sections(names.push(name)) == named_sections(names),
        named_sections(Seq::empty()).len() == 0,
{
    assert(names.push(name).drop_last() =~= names);
}

/// The sections that are named make up the menu. Where none is, all sections do, each of them
/// once.
pub proof fn lemma_menu_holds_the_named_sections(
    values: ConfigValues,
    names: Vec<String>,
    section: BrowserSection,
)
    ensures
        browser_options(values) is None ==> configured_sections(values) == default_sections(),
        browser_options(values) matches Some(options) ==> options.sections == Some(names)
            ==> named_sections(texts(names@)).len() > 0 ==> configured_sections(values)
            == named_sections(texts(names@)),
        browser_options(values) matches Some(options) ==> options.sections == Some(names)
            ==> named_sections(texts(names@)).len() == 0 ==> configured_sections(values)
            == default_sections(),
        default_sections().contains(section),
        default_sections().len() == 5,
{
    let all = default_sections();
    assert(all[0] == BrowserSection::Search);
    assert(all[1] == BrowserSection::Playlists);
    assert(all[2] == BrowserSection::Albums);
    assert(all[3] == BrowserSection::Artists);
    assert(all[4] == BrowserSection::Recommendations);
}

/// The pane starts with the section that the configuration names for it, if that is in the menu;
/// otherwise with the first that is not the search, so that only searches stand before it.
pub proof fn lemma_start_is_the_named_or_the_first_list(values: ConfigValues, name: String, i: int)
    ensures
        ({
            let sections = configured_sections(values);
            let start = start_section(values);
            &&& browser_options(values) matches Some(options) ==> options.default_section == Some(
                name,
            ) ==> section_named(name@) is Some ==> sections.contains(section_named(name@)->0)
                ==> start == section_named(name@)->0
            &&& (browser_options(values) is None || browser_options(values)->0.default_section
                is None) && 0 <= i < sections.len() && sections[i] != BrowserSection::Search && (
            forall|j: int| 0 <= j < i ==> sections[j] == BrowserSection::Search) ==> start
                == sections[i]
        }),
{
    let sections = configured_sections(values);
    if 0 <= i < sections.len() && sections[i] != BrowserSection::Search && (forall|j: int|
        0 <= j < i ==> sections[j] == BrowserSection::Search) {
        lemma_first_list_is(sections, i);
    }
}

proof fn lemma_first_list_is(sections: Seq<BrowserSection>, i: int)
    requires
        0 <= i < sections.len(),
        sections[i] != BrowserSection::Search,
        forall|j: int| 0 <= j < i ==> sections[j] == BrowserSection::Search,
    ensures
        first_list(sections) == Some(sections[i]),
    decreases sections.len(),
{
    if i > 0 {
        let rest = sections.skip(1);
        assert(sections[0] == BrowserSection::Search);
        assert(rest[i - 1] == sections[i]);
        assert forall|j: int| 0 <= j < i - 1 implies rest[j] == BrowserSection::Search by {
            assert(rest[j] == sections[j + 1]);
        }
        lemma_first_list_is(rest, i - 1);
    }
}

/// The order by name holds each place once, and puts the names in the order of their lower-case
/// equivalents.
pub proof fn lemma_names_are_put_in_order(names: Seq<Seq<char>>, i: int, j: int, place: int)
    requires
        0 <= i < j < names.len(),
        0 <= place < names.len(),
    ensures
        ({
            let order = order_by_name(names);
            &&& order.len() == names.len()
            &&& 0 <= order[i] < names.len() && 0 <= order[j] < names.len()
            &&& in_order(lowercase(names[order[i]]), lowercase(names[order[j]]))
            &&& order.contains(place)
        }),
{
    lemma_order_by_name(names);
    let list = named(names);
    let sorted = stable_sort(list, rank_names());
    let order = order_by_name(names);
    assert(order[i] == sorted[i].index && order[j] == sorted[j].index);
    lemma_from_the_list(list, sorted, i);
    lemma_from_the_list(list, sorted, j);
    assert(rank_names()(sorted[i], sorted[j]));
    assert(list[place].index == place);
    assert(list.contains(list[place]));
    vstd::seq_lib::to_multiset_contains(list, list[place]);
    vstd::seq_lib::to_multiset_contains(sorted, list[place]);
    let k = choose|k: int| 0 <= k < sorted.len() && sorted[k] == list[place];
    assert(order[k] == place);
}

proof fn lemma_from_the_list(list: Seq<NamedView>, sorted: Seq<NamedView>, i: int)
    requires
        sorted.to_multiset() == list.to_multiset(),
        0 <= i < sorted.len(),
    ensures
        list.contains(sorted[i]),
{
    assert(sorted.contains(sorted[i]));
    vstd::seq_lib::to_multiset_contains(sorted, sorted[i]);
    vstd::seq_lib::to_multiset_contains(list, sorted[i]);
}

/// The recommendations can be based on just those saved tracks that have an id.
pub proof fn lemma_ids_are_those_of_the_saved(ids: Seq<Option<String>>, n: nat, id: String)
    requires
        n < ids.len(),
    ensures
        ids_of(ids, 0).len() == 0,
        ids[n as int] is None ==> ids_of(ids, (n + 1) as nat) == ids_of(ids, n),
        ids[n as int] == Some(id) ==> ids_of(ids, (n + 1) as nat) == ids_of(ids, n).push(id@),
{
}

/// Nothing is searched for but what was typed, and only once there is something: until then the
/// search stays without results. Leaving the input keeps the text.
pub proof fn lemma_search_starts_with_enter(search: SearchModel, event: Event)
    requires
        search.active,
    ensures
        ({
            let after = search_event(search, event);
            &&& after.1 is Search <==> event == Event::Key(Key::Enter) && search.input.len() > 0
            &&& after.1 is Search ==> after.0.has_results && !after.0.active && after.0.input
                == search.input
            &&& !(after.1 is Search) ==> after.0.has_results == search.has_results
            &&& event == Event::Key(Key::Enter) || event == Event::Key(Key::Esc)
                <==> !after.0.active
            &&& event == Event::Key(Key::Esc) ==> after.0.input == search.input
        }),
{
}

/// The input starts with a slash or a press on its row. Until then no key changes the text: keys go
/// to the results, once there are any. The results see the mouse in the row below the input as in
/// their first row.
pub proof fn lemma_results_are_below_the_input(
    search: SearchModel,
    c: char,
    position: Vec2,
    offset: Vec2,
    mouse: MouseEvent,
)
    requires
        !search.active,
        offset.y < position.y,
        offset.x <= position.x,
    ensures
        search_event(search, Event::Char('/')).0 == (SearchModel { active: true, ..search }),
        c != '/' ==> search_event(search, Event::Char(c)).0 == search,
        c != '/' && search.has_results ==> search_event(search, Event::Char(c)).1
            == SearchOutcome::Forward(Event::Char(c)),
        !search.has_results && c != '/' ==> search_event(search, Event::Char(c)).1 is Ignored,
        ({
            let event = Event::Mouse { position, offset, event: mouse };
            let after = search_event(search, event);
            &&& after.0 == search
            &&& !search.has_results ==> after.1 is Ignored
            &&& search.has_results ==> {
                &&& after.1 matches SearchOutcome::Forward(inner)
                &&& inner matches Event::Mouse { position: p, offset: o, event: e }
                &&& e == mouse
                &&& local_position(p, o).x == local_position(position, offset).x
                &&& local_position(p, o).y + 1 == local_position(position, offset).y
            }
        }),
        search_event(
            search,
            Event::Mouse {
                position: Vec2 { x: position.x, y: offset.y },
                offset,
                event: MouseEvent::Press(MouseButton::Left),
            },
        ).0.active,
{
}

/// The input row shows what was typed, with a cursor behind it while the input is active, and a hint
/// where there is nothing. The row stands out just while the input is active.
pub proof fn lemma_input_row_shows_what_was_typed(search: SearchModel, columns: int)
    ensures
        search.active ==> search.input.is_prefix_of(input_text(search)) && input_text(search).len()
            == search.input.len() + 1,
        !search.active && search.input.len() > 0 ==> input_text(search) == search.input,
        !search.active && search.input.len() == 0 ==> input_text(search) == "Search…"@,
        ({
            let strokes = input_strokes(search, columns);
            &&& strokes.len() == 2
            &&& strokes[0].style == strokes[1].style
            &&& strokes[1].style == highlight_style() <==> search.active
            &&& strokes[1] == text_at(0, 0, input_text(search), strokes[1].style)
        }),
{
    reveal_strlit("▏");
    assert(search.input =~= (search.input + "▏"@).take(search.input.len() as int));
}

/// Each section shows its own view.
pub proof fn lemma_sections_show_their_views(section: BrowserSection, has_results: bool)
    ensures
        shown_view(section, has_results) is Albums <==> section is Albums,
        shown_view(section, has_results) is Artists <==> section is Artists,
        shown_view(section, has_results) is Recommendations <==> section is Recommendations,
        shown_view(section, has_results) is SearchResults <==> section is Search && has_results,
        section is Playlists ==> shown_view(section, has_results) is Playlists,
{
}

/// What can be opened is the selected item of the list that shows, if there is one.
pub proof fn lemma_selected_item_is_of_the_shown_list(
    view: BrowserView,
    playlists: int,
    albums: int,
    artists: int,
)
    ensures
        view.selected_item(playlists, albums, artists) matches Some((shown, item)) ==> {
            &&& shown == shown_view(view.section, view.search.has_results)
            &&& shown is Playlists ==> item == view.playlists.selected && item < playlists
            &&& shown is Albums ==> item == view.albums.selected && item < albums
            &&& shown is Artists ==> item == view.artists.selected && item < artists
            &&& shown is Playlists || shown is Albums || shown is Artists
        },
        view.section is Playlists && view.playlists.selected < playlists ==> view.selected_item(
            playlists,
            albums,
            artists,
        ) is Some,
        view.section is Albums && view.albums.selected < albums ==> view.selected_item(
            playlists,
            albums,
            artists,
        ) is Some,
        view.section is Artists && view.artists.selected < artists ==> view.selected_item(
            playlists,
            albums,
            artists,
        ) is Some,
{
}

/// The menu opens with the section that shows in focus.
pub proof fn lemma_menu_opens_at_the_section(
    sections: Seq<BrowserSection>,
    section: BrowserSection,
)
    requires
        sections.contains(section),
    ensures
        0 <= menu_position(sections, section) < sections.len(),
        sections[menu_position(sections, section)] == section,
    decreases sections.len(),
{
    if sections[0] != section {
        let rest = sections.skip(1);
        let k = choose|k: int| 0 <= k < sections.len() && sections[k] == section;
        assert(rest[k - 1] == section);
        lemma_menu_opens_at_the_section(rest, section);
    }
}

/// The lists are sorted just where the configuration asks for the order by name.
pub proof fn lemma_lists_are_sorted_on_demand(values: ConfigValues)
    ensures
        browser_options(values) is None ==> !sorts_by_name(values),
        browser_options(values) matches Some(options) ==> (sorts_by_name(values) <==> maybe_text(
            options.sort,
        ) == Some("name"@)),
{
}

/// The section that is switched to shows. The recommendations are fetched just the first time, and
/// the search starts with its input.
pub proof fn lemma_switching_shows_the_section(
    view: &mut BrowserView,
    section: BrowserSection,
    fetch: bool,
)
    requires
        call_ensures(BrowserView::set_section, (view, section), fetch),
    ensures
        final(view).section == section,
        fetch <==> section is Recommendations && !old(view).recommendations_loaded,
        fetch ==> final(view).recommendations_loaded,
        old(view).recommendations_loaded ==> final(view).recommendations_loaded,
        section is Search ==> final(view).search@.active,
        final(view).search@.input == old(view).search@.input,
        final(view).sections == old(view).sections,
        final(view).playlists.selected == old(view).playlists.selected,
        final(view).albums.selected == old(view).albums.selected,
        final(view).artists == old(view).artists,
        final(view).playlists.slots.list().len() == 0 && final(view).albums.slots.list().len() == 0,
{
}

/// The results of a search leave the first row to the input; all other views have the whole pane.
pub proof fn lemma_results_leave_a_row(
    view: BrowserView,
    size: Vec2,
    inner: Option<(SectionView, Vec2)>,
)
    requires
        call_ensures(BrowserView::layout, (&view, size), inner),
    ensures
        view.section is Search && !view.search.has_results ==> inner is None,
        view.section is Search && view.search.has_results ==> {
            &&& inner matches Some((shown, area))
            &&& shown is SearchResults
            &&& area.x == size.x
            &&& size.y > 0 ==> area.y + 1 == size.y
        },
        !(view.section is Search) ==> {
            &&& inner matches Some((shown, area))
            &&& !(shown is SearchResults)
            &&& area == size
        },
{
}

} // verus!
