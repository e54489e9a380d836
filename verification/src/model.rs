use vstd::prelude::*;
use crate::cli::{Feed, feed_path};
use crate::comments::{Comment, CommentNode, CommentV, NodeV, idx_view, nodes_view, strings_view};
use crate::nav::{
    ListSelection, ensure_comment_visible, ensure_comment_visible_spec, ensure_visible,
    ensure_visible_spec, move_down_spec, move_selection_down, move_selection_up, move_up_spec,
    page_down, page_down_comment_list, page_down_spec, page_up, page_up_comment_list,
    page_up_spec, sel_or_zero,
};
use crate::screen::{self, Action};
use crate::rate_limiter::elapsed;
use crate::story::{Story, StoryV};
use crate::tree::{
    comments_view, expand_spec, expand_to_depth, push_visible, set_collapse_in_tree,
    set_collapse_spec, visible_comments,
};

verus! {

/// Whether loaded stories replace the list or are appended to it.
#[derive(Clone, Copy, PartialEq, Eq, Structural, Debug)]
pub enum StoriesLoadMode {
    Replace,
    Append,
}

/// A fetched comment thread kept for a story until it is opened.
pub struct CachedThread {
    pub story_id: String,
    pub story: Story,
    pub comments: Vec<CommentNode>,
}

/// The generation of the comment prefetch under way for a story.
pub struct PrefetchTicket {
    pub story_id: String,
    pub generation: u64,
}

/// Work that the application asks its driver to do; each fetch is answered with an
/// `AppEvent` that carries the same generation.
pub enum Effect {
    FetchFeed { generation: u64, feed: Feed, count: usize },
    FetchFeedPage { generation: u64, feed: Feed, page: usize },
    LoadComments { generation: u64, story_id: String },
    PrefetchComments { generation: u64, story_id: String },
    SaveStories { feed: Feed, next_page: usize, end_reached: bool, stories: Vec<Story> },
    OpenStory { url: String },
    OpenStoryComments { url: String },
    LogError { message: String },
}

pub ghost enum EffectV {
    FetchFeed { generation: u64, feed: Feed, count: usize },
    FetchFeedPage { generation: u64, feed: Feed, page: usize },
    LoadComments { generation: u64, story_id: Seq<char> },
    PrefetchComments { generation: u64, story_id: Seq<char> },
    SaveStories { feed: Feed, next_page: usize, end_reached: bool, stories: Seq<StoryV> },
    OpenStory { url: Seq<char> },
    OpenStoryComments { url: Seq<char> },
    LogError { message: Seq<char> },
}

pub open spec fn stories_view(s: Seq<Story>) -> Seq<StoryV> {
    s.map_values(|x: Story| x@)
}

impl View for Effect {
    type V = EffectV;

    open spec fn view(&self) -> EffectV {
        match self {
            Effect::FetchFeed { generation, feed, count } => EffectV::FetchFeed {
                generation: *generation,
                feed: *feed,
                count: *count,
            },
            Effect::FetchFeedPage { generation, feed, page } => EffectV::FetchFeedPage {
                generation: *generation,
                feed: *feed,
                page: *page,
            },
            Effect::LoadComments { generation, story_id } => EffectV::LoadComments {
                generation: *generation,
                story_id: story_id@,
            },
            Effect::PrefetchComments { generation, story_id } => EffectV::PrefetchComments {
                generation: *generation,
                story_id: story_id@,
            },
            Effect::SaveStories { feed, next_page, end_reached, stories } => EffectV::SaveStories {
                feed: *feed,
                next_page: *next_page,
                end_reached: *end_reached,
                stories: stories_view(stories@),
            },
            Effect::OpenStory { url } => EffectV::OpenStory { url: url@ },
            Effect::OpenStoryComments { url } => EffectV::OpenStoryComments { url: url@ },
            Effect::LogError { message } => EffectV::LogError { message: message@ },
        }
    }
}

pub open spec fn effects_view(s: Seq<Effect>) -> Seq<EffectV> {
    s.map_values(|e: Effect| e@)
}

pub open spec fn opt_story_view(o: Option<Story>) -> Option<StoryV> {
    match o {
        Some(s) => Some(s@),
        None => None,
    }
}

pub open spec fn opt_text_view(o: Option<String>) -> Option<Seq<char>> {
    match o {
        Some(s) => Some(s@),
        None => None,
    }
}

pub open spec fn tickets_view(s: Seq<PrefetchTicket>) -> Seq<(Seq<char>, u64)> {
    s.map_values(|t: PrefetchTicket| (t.story_id@, t.generation))
}

pub open spec fn cache_view(s: Seq<CachedThread>) -> Seq<(Seq<char>, (StoryV, Seq<NodeV>))> {
    s.map_values(|c: CachedThread| (c.story_id@, (c.story@, nodes_view(c.comments@))))
}

/// The application's state as the contracts see it.
pub ghost struct AppV {
    pub view: screen::View,
    pub help_visible: bool,
    pub stories: Seq<StoryV>,
    pub story_list_state: ListSelection,
    pub story_loading: bool,
    pub story_page_size: usize,
    pub story_next_page: usize,
    pub story_end_reached: bool,
    pub prefetch_in_flight: bool,
    pub current_story: Option<StoryV>,
    pub comment_tree: Seq<NodeV>,
    pub comment_list: Seq<CommentV>,
    pub comment_list_state: ListSelection,
    pub comment_loading: bool,
    pub comment_page_size: usize,
    pub comment_item_heights: Seq<usize>,
    pub comment_viewport_height: usize,
    pub comment_line_offset: usize,
    pub last_error: Option<Seq<char>>,
    pub in_flight: Seq<Seq<char>>,
    pub feed: Feed,
    pub count: usize,
    pub has_state_store: bool,
    pub comment_default_visible_levels: usize,
    pub stories_generation: u64,
    pub comments_generation: u64,
    pub comments_prefetch_generation: u64,
    pub generations: Seq<(Seq<char>, u64)>,
    pub cache: Seq<(Seq<char>, (StoryV, Seq<NodeV>))>,
    pub awaiting: Option<Seq<char>>,
    pub should_quit: bool,
    pub spinner_idx: usize,
    pub last_user_activity: u64,
    pub pending_selection: Option<Seq<char>>,
}

/// The state of the terminal application: the story list, the open comment thread,
/// and the bookkeeping of the fetches under way.
pub struct App {
    pub view: screen::View,
    pub help_visible: bool,
    pub stories: Vec<Story>,
    pub story_list_state: ListSelection,
    pub story_loading: bool,
    pub story_page_size: usize,
    pub story_next_page: usize,
    pub story_end_reached: bool,
    pub prefetch_in_flight: bool,
    pub current_story: Option<Story>,
    pub comment_tree: Vec<CommentNode>,
    pub comment_list: Vec<Comment>,
    pub comment_list_state: ListSelection,
    pub comment_loading: bool,
    pub comment_page_size: usize,
    pub comment_item_heights: Vec<usize>,
    pub comment_viewport_height: usize,
    pub comment_line_offset: usize,
    pub last_error: Option<String>,
    pub comment_prefetch_in_flight_ids: Vec<String>,
    pub feed: Feed,
    pub count: usize,
    pub has_state_store: bool,
    pub comment_default_visible_levels: usize,
    pub stories_generation: u64,
    pub comments_generation: u64,
    pub comments_prefetch_generation: u64,
    pub comment_prefetch_generations: Vec<PrefetchTicket>,
    pub prefetched_comments_cache: Vec<CachedThread>,
    pub awaiting_prefetch_story_id: Option<String>,
    pub should_quit: bool,
    pub spinner_idx: usize,
    pub last_user_activity: u64,
    pub pending_story_selection_id: Option<String>,
}

impl View for App {
    type V = AppV;

    open spec fn view(&self) -> AppV {
        AppV {
            view: self.view,
            help_visible: self.help_visible,
            stories: stories_view(self.stories@),
            story_list_state: self.story_list_state,
            story_loading: self.story_loading,
            story_page_size: self.story_page_size,
            story_next_page: self.story_next_page,
            story_end_reached: self.story_end_reached,
            prefetch_in_flight: self.prefetch_in_flight,
            current_story: opt_story_view(self.current_story),
            comment_tree: nodes_view(self.comment_tree@),
            comment_list: comments_view(self.comment_list@),
            comment_list_state: self.comment_list_state,
            comment_loading: self.comment_loading,
            comment_page_size: self.comment_page_size,
            comment_item_heights: self.comment_item_heights@,
            comment_viewport_height: self.comment_viewport_height,
            comment_line_offset: self.comment_line_offset,
            last_error: opt_text_view(self.last_error),
            in_flight: strings_view(self.comment_prefetch_in_flight_ids@),
            feed: self.feed,
            count: self.count,
            has_state_store: self.has_state_store,
            comment_default_visible_levels: self.comment_default_visible_levels,
            stories_generation: self.stories_generation,
            comments_generation: self.comments_generation,
            comments_prefetch_generation: self.comments_prefetch_generation,
            generations: tickets_view(self.comment_prefetch_generations@),
            cache: cache_view(self.prefetched_comments_cache@),
            awaiting: opt_text_view(self.awaiting_prefetch_story_id),
            should_quit: self.should_quit,
            spinner_idx: self.spinner_idx,
            last_user_activity: self.last_user_activity,
            pending_selection: opt_text_view(self.pending_story_selection_id),
        }
    }
}

/// The generation after `g`, wrapping around.
pub open spec fn next_generation(g: u64) -> u64 {
    if g == u64::MAX {
        0
    } else {
        (g + 1) as u64
    }
}

fn bump(g: u64) -> (r: u64)
    ensures
        r == next_generation(g),
{
    if g == u64::MAX {
        0
    } else {
        g + 1
    }
}

/// The index of the selected story, where it is in the list.
pub open spec fn selected_story_index(a: AppV) -> Option<int> {
    let i = sel_or_zero(a.story_list_state) as int;
    if i < a.stories.len() {
        Some(i)
    } else {
        None
    }
}

/// `refresh_stories`: a new stories generation, the selected story remembered, and
/// the first pages of the feed asked for.
pub open spec fn refresh_stories_spec(a: AppV) -> (AppV, Seq<EffectV>) {
    let g = next_generation(a.stories_generation);
    let pending = match selected_story_index(a) {
        Some(i) => Some(a.stories[i].short_id),
        None => None,
    };
    let sel = if a.stories.len() == 0 {
        ListSelection { selected: Some(0), offset: 0 }
    } else {
        a.story_list_state
    };
    (
        AppV {
            stories_generation: g,
            pending_selection: pending,
            last_error: None,
            story_loading: true,
            prefetch_in_flight: false,
            story_end_reached: false,
            story_next_page: 1,
            story_list_state: sel,
            ..a
        },
        seq![EffectV::FetchFeed { generation: g, feed: a.feed, count: a.count }],
    )
}

/// `saturating_mul` of two sizes.
pub open spec fn sat_mul(a: usize, b: usize) -> int {
    if a * b > usize::MAX {
        usize::MAX as int
    } else {
        a * b
    }
}

/// Whether the next page of the feed is due: the list is not yet a screenful, or the
/// selection has reached the last fifth of it.
pub open spec fn wants_next_page(a: AppV) -> bool {
    let selected = sel_or_zero(a.story_list_state) as usize;
    let loaded = a.stories.len() as usize;
    loaded < a.story_page_size || sat_mul(selected, 10) >= sat_mul(loaded, 8)
}

/// `maybe_prefetch_stories`.
pub open spec fn prefetch_stories_spec(a: AppV) -> (AppV, Seq<EffectV>) {
    if a.story_loading || a.prefetch_in_flight || a.story_end_reached || a.stories.len() == 0
        || !wants_next_page(a) {
        (a, Seq::empty())
    } else {
        (
            AppV { prefetch_in_flight: true, ..a },
            seq![
                EffectV::FetchFeedPage {
                    generation: a.stories_generation,
                    feed: a.feed,
                    page: a.story_next_page,
                },
            ],
        )
    }
}

/// `save_story_list_state_background`.
pub open spec fn save_stories_spec(a: AppV) -> Seq<EffectV> {
    if !a.has_state_store || a.stories.len() == 0 {
        Seq::empty()
    } else {
        seq![
            EffectV::SaveStories {
                feed: a.feed,
                next_page: a.story_next_page,
                end_reached: a.story_end_reached,
                stories: a.stories,
            },
        ]
    }
}

fn mul_sat(a: usize, b: usize) -> (r: usize)
    ensures
        r == sat_mul(a, b),
{
    if b != 0 && a > usize::MAX / b {
        proof {
            assert(a * b > usize::MAX) by (nonlinear_arith)
                requires
                    b != 0,
                    a > usize::MAX / b,
            ;
        }
        usize::MAX
    } else {
        proof {
            if b != 0 {
                assert(a * b <= usize::MAX) by (nonlinear_arith)
                    requires
                        b != 0,
                        a <= usize::MAX / b,
                ;
            }
        }
        a * b
    }
}

fn copy_stories(v: &Vec<Story>) -> (r: Vec<Story>)
    ensures
        stories_view(r@) == stories_view(v@),
{
    let mut out: Vec<Story> = Vec::new();
    for i in 0..v.len()
        invariant
            stories_view(out@) == stories_view(v@).take(i as int),
    {
        let ghost prev = out@;
        let st = v[i].duplicate();
        out.push(st);
        assert(stories_view(out@) =~= stories_view(prev).push(st@));
        assert(stories_view(v@).take(i + 1) =~= stories_view(v@).take(i as int).push(v@[i as int]@));
    }
    assert(stories_view(v@).take(v.len() as int) =~= stories_view(v@));
    out
}

impl App {
    /// The selected story, where it is in the list.
    pub fn selected_story(&self) -> (r: Option<&Story>)
        ensures
            match selected_story_index(self@) {
                Some(i) => r matches Some(s) && s@ == self@.stories[i],
                None => r is None,
            },
    {
        let idx = match self.story_list_state.selected {
            Some(i) => i,
            None => 0,
        };
        if idx < self.stories.len() {
            Some(&self.stories[idx])
        } else {
            None
        }
    }

    /// Starts loading the feed afresh; the answer of any earlier load is then stale.
    pub fn refresh_stories(&mut self, effects: &mut Vec<Effect>)
        ensures
            final(self)@ == refresh_stories_spec(old(self)@).0,
            effects_view(final(effects)@) == effects_view(old(effects)@) + refresh_stories_spec(
                old(self)@,
            ).1,
    {
        let ghost a = self@;
        self.stories_generation = bump(self.stories_generation);
        let generation = self.stories_generation;
        let pending = match self.selected_story() {
            Some(s) => Some(s.short_id.clone()),
            None => None,
        };
        self.pending_story_selection_id = pending;
        self.last_error = None;
        self.story_loading = true;
        self.prefetch_in_flight = false;
        self.story_end_reached = false;
        self.story_next_page = 1;
        if self.stories.len() == 0 {
            self.story_list_state = ListSelection { selected: Some(0), offset: 0 };
        }
        let e = Effect::FetchFeed { generation, feed: self.feed, count: self.count };
        let ghost before = effects@;
        effects.push(e);
        assert(effects_view(effects@) =~= effects_view(before).push(e@));
        assert(self@ == refresh_stories_spec(a).0);
    }

    /// Asks for the next page of the feed when the selection nears the end of the
    /// list or the list does not fill the screen, unless a load is under way or the
    /// feed has ended.
    pub fn maybe_prefetch_stories(&mut self, effects: &mut Vec<Effect>)
        ensures
            final(self)@ == prefetch_stories_spec(old(self)@).0,
            effects_view(final(effects)@) == effects_view(old(effects)@) + prefetch_stories_spec(
                old(self)@,
            ).1,
    {
        let ghost a = self@;
        if self.story_loading || self.prefetch_in_flight || self.story_end_reached {
            assert(effects_view(effects@) =~= effects_view(effects@) + Seq::<EffectV>::empty());
            return;
        }
        if self.stories.len() == 0 {
            assert(effects_view(effects@) =~= effects_view(effects@) + Seq::<EffectV>::empty());
            return;
        }
        let selected = match self.story_list_state.selected {
            Some(i) => i,
            None => 0,
        };
        let loaded = self.stories.len();
        let should_fill_viewport = loaded < self.story_page_size;
        let should_prefetch = should_fill_viewport || mul_sat(selected, 10) >= mul_sat(loaded, 8);
        if !should_prefetch {
            assert(effects_view(effects@) =~= effects_view(effects@) + Seq::<EffectV>::empty());
            return;
        }
        self.prefetch_in_flight = true;
        let e = Effect::FetchFeedPage {
            generation: self.stories_generation,
            feed: self.feed,
            page: self.story_next_page,
        };
        let ghost before = effects@;
        effects.push(e);
        assert(effects_view(effects@) =~= effects_view(before).push(e@));
    }

    /// Asks for the story list to be saved, where there is a store and a list.
    pub fn save_story_list_state_background(&self, effects: &mut Vec<Effect>)
        ensures
            effects_view(final(effects)@) == effects_view(old(effects)@) + save_stories_spec(
                self@,
            ),
    {
        if !self.has_state_store || self.stories.len() == 0 {
            assert(effects_view(effects@) =~= effects_view(effects@) + Seq::<EffectV>::empty());
            return;
        }
        let e = Effect::SaveStories {
            feed: self.feed,
            next_page: self.story_next_page,
            end_reached: self.story_end_reached,
            stories: copy_stories(&self.stories),
        };
        let ghost before = effects@;
        effects.push(e);
        assert(effects_view(effects@) =~= effects_view(before).push(e@));
    }
}

/// The depth below which comments start open: one less than the visible levels.
pub open spec fn expand_depth(levels: usize) -> nat {
    if levels > 0 {
        (levels - 1) as nat
    } else {
        0
    }
}

/// The first comment of `list` with id `id`.
pub open spec fn first_with_id(list: Seq<CommentV>, id: Seq<char>) -> Option<int> {
    if exists|k: int| 0 <= k < list.len() && #[trigger] list[k].id == id {
        Some(
            choose|k: int|
                0 <= k < list.len() && #[trigger] list[k].id == id && forall|j: int|
                    0 <= j < k ==> list[j].id != id,
        )
    } else {
        None
    }
}

/// `rebuild_comment_list`: the shown comments recomputed from the tree, their
/// heights forgotten, and the comment `preserve` selected again where it is shown.
pub open spec fn rebuild_spec(a: AppV, preserve: Option<Seq<char>>) -> AppV {
    let list = visible_comments(a.comment_tree);
    let a1 = AppV { comment_list: list, comment_item_heights: Seq::empty(), ..a };
    match preserve {
        None => a1,
        Some(id) => match first_with_id(list, id) {
            Some(k) => AppV {
                comment_list_state: ListSelection { selected: Some(k as usize), ..a1.comment_list_state },
                ..a1
            },
            None => a1,
        },
    }
}

/// `apply_comments_for_story`: the thread shown, opened to the default depth, with
/// its first comment selected.
pub open spec fn apply_comments_spec(a: AppV, story: StoryV, comments: Seq<NodeV>, switch: bool) -> AppV {
    let a1 = AppV {
        view: if switch { screen::View::Comments } else { a.view },
        awaiting: None,
        comment_loading: false,
        last_error: None,
        current_story: Some(story),
        comment_tree: expand_spec(comments, expand_depth(a.comment_default_visible_levels)),
        ..a
    };
    let a2 = rebuild_spec(a1, None);
    AppV {
        comment_list_state: ListSelection { selected: Some(0), offset: 0 },
        comment_line_offset: 0,
        ..a2
    }
}

/// `reset_comment_state`.
pub open spec fn reset_comments_spec(a: AppV) -> AppV {
    AppV {
        comment_tree: Seq::empty(),
        comment_list: Seq::empty(),
        comment_item_heights: Seq::empty(),
        comment_line_offset: 0,
        comment_list_state: ListSelection { selected: Some(0), offset: 0 },
        ..a
    }
}

pub open spec fn same_story(cur: Option<StoryV>, id: Seq<char>) -> bool {
    cur matches Some(c) && c.short_id == id
}

/// `load_comments_for_story`: a new comments generation and the thread asked for;
/// the comments shown are cleared unless they are of the same story.
pub open spec fn load_comments_spec(a: AppV, story: StoryV, switch: bool) -> (AppV, Seq<EffectV>) {
    let g = next_generation(a.comments_generation);
    let a1 = AppV {
        comments_generation: g,
        awaiting: None,
        view: if switch { screen::View::Comments } else { a.view },
        last_error: None,
        current_story: Some(story),
        comment_loading: true,
        ..a
    };
    let a2 = if same_story(a.current_story, story.short_id) {
        a1
    } else {
        reset_comments_spec(a1)
    };
    (a2, seq![EffectV::LoadComments { generation: g, story_id: story.short_id }])
}

/// `refresh_comments`.
pub open spec fn refresh_comments_spec(a: AppV) -> (AppV, Seq<EffectV>) {
    match a.current_story {
        None => (AppV { last_error: Some("no current story"@), ..a }, Seq::empty()),
        Some(s) => load_comments_spec(a, s, true),
    }
}

/// The state after the first comment with id `id` in the tree is given collapsed
/// flag `c`: the shown comments rebuilt with that comment selected and on screen, or
/// an error where no comment has that id.
pub open spec fn collapse_by_id_spec(a: AppV, id: Seq<char>, c: bool) -> AppV {
    let (t, found) = set_collapse_spec(a.comment_tree, id, c);
    if !found {
        AppV { comment_tree: t, last_error: Some("comment not found id="@ + id), ..a }
    } else {
        let a1 = rebuild_spec(AppV { comment_tree: t, ..a }, Some(id));
        let (s2, off2) = ensure_comment_visible_spec(
            a1.comment_list_state,
            a1.comment_line_offset,
            a1.comment_list.len() as usize,
            a1.comment_item_heights,
            a1.comment_viewport_height,
        );
        AppV { comment_list_state: s2, comment_line_offset: off2, ..a1 }
    }
}

/// The state after the selected comment is given collapsed flag `c`: unchanged where
/// no comment with replies is selected, or where `c` closes it and it is closed.
pub open spec fn set_selected_collapse_spec(a: AppV, c: bool) -> AppV {
    match a.comment_list_state.selected {
        None => a,
        Some(sel) => if sel >= a.comment_list.len() {
            a
        } else {
            let cm = a.comment_list[sel as int];
            if cm.kids.len() == 0 || (c && cm.collapsed) {
                a
            } else {
                collapse_by_id_spec(a, cm.id, c)
            }
        },
    }
}

/// `toggle_selected_comment_collapse`.
pub open spec fn toggle_selected_spec(a: AppV) -> AppV {
    match a.comment_list_state.selected {
        None => a,
        Some(sel) => if sel >= a.comment_list.len() {
            a
        } else {
            let cm = a.comment_list[sel as int];
            if cm.kids.len() == 0 {
                a
            } else if cm.collapsed {
                set_selected_collapse_spec(a, false)
            } else {
                set_selected_collapse_spec(a, true)
            }
        },
    }
}

/// Where the first comment with id `id` stands in `list`.
fn first_comment_index(list: &Vec<Comment>, id: &String) -> (r: Option<usize>)
    ensures
        match first_with_id(comments_view(list@), id@) {
            Some(k) => r == Some(k as usize),
            None => r is None,
        },
{
    let ghost lv = comments_view(list@);
    for k in 0..list.len()
        invariant
            lv == comments_view(list@),
            forall|j: int| 0 <= j < k ==> lv[j].id != id@,
    {
        if list[k].id == *id {
            assert(lv[k as int].id == id@);
            let ghost w = choose|m: int|
                0 <= m < lv.len() && #[trigger] lv[m].id == id@ && forall|j: int|
                    0 <= j < m ==> lv[j].id != id@;
            assert(w == k) by {
                if w < k {
                    assert(lv[w].id != id@);
                } else if w > k {
                    assert(lv[k as int].id != id@);
                }
            }
            return Some(k);
        }
    }
    assert(!exists|k: int| 0 <= k < lv.len() && #[trigger] lv[k].id == id@);
    None
}

impl App {
    /// Recomputes the shown comments from the tree; selects `preserve_comment_id`
    /// again where it is shown.
    pub fn rebuild_comment_list(&mut self, preserve_comment_id: Option<&String>)
        ensures
            final(self)@ == rebuild_spec(
                old(self)@,
                match preserve_comment_id {
                    Some(id) => Some(id@),
                    None => None,
                },
            ),
    {
        let mut flat: Vec<Comment> = Vec::new();
        push_visible(&self.comment_tree, &mut flat);
        assert(comments_view(flat@) =~= visible_comments(nodes_view(self.comment_tree@)));
        self.comment_list = flat;
        self.comment_item_heights = Vec::new();
        let id = match preserve_comment_id {
            None => return,
            Some(id) => id,
        };
        if let Some(idx) = first_comment_index(&self.comment_list, id) {
            self.comment_list_state.selected = Some(idx);
        }
    }

    /// Opens every comment with replies above the configured depth.
    pub fn apply_default_comment_expansion(&mut self)
        ensures
            final(self)@ == (AppV {
                comment_tree: expand_spec(
                    old(self)@.comment_tree,
                    expand_depth(old(self)@.comment_default_visible_levels),
                ),
                ..old(self)@
            }),
    {
        let levels = self.comment_default_visible_levels;
        let expand_depth_exclusive = if levels > 0 { levels - 1 } else { 0 };
        expand_to_depth(&mut self.comment_tree, expand_depth_exclusive);
    }

    /// Shows a fetched thread.
    pub fn apply_comments_for_story(&mut self, story: Story, comments: Vec<CommentNode>, switch: bool)
        ensures
            final(self)@ == apply_comments_spec(old(self)@, story@, nodes_view(comments@), switch),
    {
        if switch {
            self.view = screen::View::Comments;
        }
        self.awaiting_prefetch_story_id = None;
        self.comment_loading = false;
        self.last_error = None;
        self.current_story = Some(story);
        self.comment_tree = comments;
        self.apply_default_comment_expansion();
        self.rebuild_comment_list(None);
        self.comment_list_state.selected = Some(0);
        self.comment_line_offset = 0;
        self.comment_list_state.offset = 0;
    }

    /// Forgets the comments shown.
    pub fn reset_comment_state(&mut self)
        ensures
            final(self)@ == reset_comments_spec(old(self)@),
    {
        self.comment_tree = Vec::new();
        self.comment_list = Vec::new();
        self.comment_item_heights = Vec::new();
        self.comment_line_offset = 0;
        self.comment_list_state = ListSelection { selected: Some(0), offset: 0 };
        assert(nodes_view(self.comment_tree@) =~= Seq::<NodeV>::empty());
        assert(comments_view(self.comment_list@) =~= Seq::<CommentV>::empty());
    }

    /// Starts loading the thread of `story`.
    pub fn load_comments_for_story(&mut self, story: Story, switch_view: bool, effects: &mut Vec<Effect>)
        ensures
            final(self)@ == load_comments_spec(old(self)@, story@, switch_view).0,
            effects_view(final(effects)@) == effects_view(old(effects)@) + load_comments_spec(
                old(self)@,
                story@,
                switch_view,
            ).1,
    {
        self.comments_generation = bump(self.comments_generation);
        let generation = self.comments_generation;
        self.awaiting_prefetch_story_id = None;
        if switch_view {
            self.view = screen::View::Comments;
        }
        self.last_error = None;
        let is_same_story = match &self.current_story {
            Some(current) => current.short_id == story.short_id,
            None => false,
        };
        let story_id = story.short_id.clone();
        self.current_story = Some(story);
        self.comment_loading = true;
        if !is_same_story {
            self.reset_comment_state();
        }
        let e = Effect::LoadComments { generation, story_id };
        let ghost before = effects@;
        effects.push(e);
        assert(effects_view(effects@) =~= effects_view(before).push(e@));
    }

    /// Loads the thread of the current story again.
    pub fn refresh_comments(&mut self, effects: &mut Vec<Effect>)
        ensures
            final(self)@ == refresh_comments_spec(old(self)@).0,
            effects_view(final(effects)@) == effects_view(old(effects)@) + refresh_comments_spec(
                old(self)@,
            ).1,
    {
        let story = match &self.current_story {
            Some(s) => s.duplicate(),
            None => {
                self.last_error = Some(String::from_str("no current story"));
                assert(effects_view(effects@) =~= effects_view(effects@) + Seq::<EffectV>::empty());
                return;
            },
        };
        self.load_comments_for_story(story, true, effects);
    }

    fn collapse_by_id(&mut self, id: String, collapsed: bool)
        ensures
            final(self)@ == collapse_by_id_spec(old(self)@, id@, collapsed),
    {
        if set_collapse_in_tree(&mut self.comment_tree, &id, collapsed).is_none() {
            let mut msg = String::from_str("comment not found id=");
            msg.append(id.as_str());
            self.last_error = Some(msg);
            return;
        }
        self.rebuild_comment_list(Some(&id));
        let len = self.comment_list.len();
        ensure_comment_visible(
            &mut self.comment_list_state,
            &mut self.comment_line_offset,
            len,
            &self.comment_item_heights,
            self.comment_viewport_height,
        );
    }

    fn set_selected_collapse(&mut self, collapsed: bool)
        ensures
            final(self)@ == set_selected_collapse_spec(old(self)@, collapsed),
    {
        let selected = match self.comment_list_state.selected {
            Some(i) => i,
            None => return,
        };
        if selected >= self.comment_list.len() {
            return;
        }
        let comment = &self.comment_list[selected];
        assert(comments_view(self.comment_list@)[selected as int] == comment@);
        if comment.kids.len() == 0 || (collapsed && comment.collapsed) {
            return;
        }
        let id = comment.id.clone();
        self.collapse_by_id(id, collapsed);
    }

    /// Collapses the selected comment's replies.
    pub fn collapse_selected_comment(&mut self)
        ensures
            final(self)@ == set_selected_collapse_spec(old(self)@, true),
    {
        self.set_selected_collapse(true);
    }

    /// Shows the selected comment's replies.
    pub fn expand_selected_comment(&mut self)
        ensures
            final(self)@ == set_selected_collapse_spec(old(self)@, false),
    {
        self.set_selected_collapse(false);
    }

    /// Collapses the selected comment's replies where they are shown, else shows them.
    pub fn toggle_selected_comment_collapse(&mut self)
        ensures
            final(self)@ == toggle_selected_spec(old(self)@),
    {
        let selected = match self.comment_list_state.selected {
            Some(i) => i,
            None => return,
        };
        if selected >= self.comment_list.len() {
            return;
        }
        let comment = &self.comment_list[selected];
        assert(comments_view(self.comment_list@)[selected as int] == comment@);
        if comment.kids.len() == 0 {
            return;
        }
        if comment.collapsed {
            self.expand_selected_comment();
        } else {
            self.collapse_selected_comment();
        }
    }
}


/// At most this many comment prefetches are under way at once.
pub const MAX_COMMENT_PREFETCH_IN_FLIGHT: usize = 3;

/// Comments are prefetched only after this long without a key press (nanoseconds).
pub const IDLE_PREFETCH_DELAY: u64 = 500_000_000;

/// `x` added to the set `s` (kept as a sequence without repeats).
pub open spec fn set_insert(s: Seq<Seq<char>>, x: Seq<char>) -> Seq<Seq<char>> {
    if s.contains(x) {
        s
    } else {
        s.push(x)
    }
}

/// `x` taken out of `s`.
pub open spec fn set_remove(s: Seq<Seq<char>>, x: Seq<char>) -> Seq<Seq<char>>
    decreases s.len(),
{
    if s.len() == 0 {
        s
    } else if s.last() == x {
        set_remove(s.drop_last(), x)
    } else {
        set_remove(s.drop_last(), x).push(s.last())
    }
}

/// Where the entry for `k` stands in an association list.
pub open spec fn key_index<V>(m: Seq<(Seq<char>, V)>, k: Seq<char>) -> Option<int> {
    if exists|i: int| 0 <= i < m.len() && #[trigger] m[i].0 == k {
        Some(choose|i: int| 0 <= i < m.len() && #[trigger] m[i].0 == k)
    } else {
        None
    }
}

/// The generation recorded for `k`.
pub open spec fn ticket_get(m: Seq<(Seq<char>, u64)>, k: Seq<char>) -> Option<u64> {
    match key_index(m, k) {
        Some(i) => Some(m[i].1),
        None => None,
    }
}

/// `m` with `k` mapped to `g`.
pub open spec fn ticket_insert(m: Seq<(Seq<char>, u64)>, k: Seq<char>, g: u64) -> Seq<(Seq<char>, u64)> {
    match key_index(m, k) {
        Some(i) => m.update(i, (k, g)),
        None => m.push((k, g)),
    }
}

/// `m` without an entry for `k`.
pub open spec fn ticket_remove(m: Seq<(Seq<char>, u64)>, k: Seq<char>) -> Seq<(Seq<char>, u64)>
    decreases m.len(),
{
    if m.len() == 0 {
        m
    } else if m.last().0 == k {
        ticket_remove(m.drop_last(), k)
    } else {
        ticket_remove(m.drop_last(), k).push(m.last())
    }
}

pub open spec fn cache_has(c: Seq<(Seq<char>, (StoryV, Seq<NodeV>))>, k: Seq<char>) -> bool {
    exists|i: int| 0 <= i < c.len() && #[trigger] c[i].0 == k
}

/// `can_prefetch_story`: it has comments, and they are neither kept nor under way.
pub open spec fn can_prefetch_spec(a: AppV, s: StoryV) -> bool {
    s.comment_count > 0 && !cache_has(a.cache, s.short_id) && !a.in_flight.contains(s.short_id)
}

/// The indices of `[lo, hi)` nearest to `sel` first, the lower one first on a tie:
/// `l` is the next index below `sel` still to take (taken while `l >= lo`), `r` the
/// next from `sel` up (taken while `r < hi`).
pub open spec fn nearest_first(l: int, r: int, lo: int, hi: int, sel: int) -> Seq<int>
    decreases (if l >= lo { l - lo + 1 } else { 0 }) + (if r < hi { hi - r } else { 0 }),
{
    if l < lo && r >= hi {
        Seq::empty()
    } else if r >= hi || (l >= lo && sel - l <= r - sel) {
        seq![l] + nearest_first(l - 1, r, lo, hi, sel)
    } else {
        seq![r] + nearest_first(l, r + 1, lo, hi, sel)
    }
}

/// The visible page of stories, nearest to the selection first.
pub open spec fn candidate_order(a: AppV) -> Seq<int> {
    let len = a.stories.len() as int;
    let lo = if a.story_list_state.offset < len { a.story_list_state.offset as int } else { len };
    let page = if a.story_page_size == 0 { 1 } else { a.story_page_size as int };
    let hi = if lo + page < len { lo + page } else { len };
    let sel = match a.story_list_state.selected { Some(i) => i as int, None => lo };
    let l = (if sel < hi { sel } else { hi }) - 1;
    let r = if sel > lo { sel } else { lo };
    nearest_first(l, r, lo, hi, sel)
}

/// The stories at `order` (up to `k`) whose comments may be prefetched.
pub open spec fn filter_candidates(a: AppV, order: Seq<int>, k: int) -> Seq<StoryV>
    decreases k,
{
    if k <= 0 || k > order.len() {
        Seq::empty()
    } else {
        let prev = filter_candidates(a, order, k - 1);
        let s = a.stories[order[k - 1]];
        if can_prefetch_spec(a, s) {
            prev.push(s)
        } else {
            prev
        }
    }
}

/// `prefetch_story_candidates`.
pub open spec fn prefetch_candidates_spec(a: AppV) -> Seq<StoryV> {
    if a.stories.len() == 0 {
        Seq::empty()
    } else {
        filter_candidates(a, candidate_order(a), candidate_order(a).len() as int)
    }
}

/// `start_comment_prefetch`.
pub open spec fn start_prefetch_spec(a: AppV, id: Seq<char>) -> (AppV, Seq<EffectV>) {
    let g = next_generation(a.comments_prefetch_generation);
    (
        AppV {
            comments_prefetch_generation: g,
            in_flight: set_insert(a.in_flight, id),
            generations: ticket_insert(a.generations, id, g),
            ..a
        },
        seq![EffectV::PrefetchComments { generation: g, story_id: id }],
    )
}

/// Starts prefetches for `cands[k..]` in order while fewer than the maximum are
/// under way.
pub open spec fn start_prefetches_spec(a: AppV, cands: Seq<StoryV>, k: int) -> (AppV, Seq<EffectV>)
    decreases cands.len() - k,
{
    if k < 0 || k >= cands.len() || a.in_flight.len() >= MAX_COMMENT_PREFETCH_IN_FLIGHT {
        (a, Seq::empty())
    } else {
        let (a1, e1) = start_prefetch_spec(a, cands[k].short_id);
        let (a2, e2) = start_prefetches_spec(a1, cands, k + 1);
        (a2, e1 + e2)
    }
}

/// `maybe_prefetch_comments`: while the story list is shown, the user idle and
/// fewer than the maximum under way, prefetches the threads of the visible stories
/// nearest the selection.
pub open spec fn prefetch_comments_spec(a: AppV, now: u64) -> (AppV, Seq<EffectV>) {
    if a.view != screen::View::Stories || a.in_flight.len() >= MAX_COMMENT_PREFETCH_IN_FLIGHT || (
    a.story_loading && a.stories.len() == 0) || elapsed(now, a.last_user_activity)
        < IDLE_PREFETCH_DELAY {
        (a, Seq::empty())
    } else {
        start_prefetches_spec(a, prefetch_candidates_spec(a), 0)
    }
}

fn contains_text(v: &Vec<String>, x: &String) -> (r: bool)
    ensures
        r == strings_view(v@).contains(x@),
{
    for i in 0..v.len()
        invariant
            forall|j: int| 0 <= j < i ==> v@[j]@ != x@,
    {
        if v[i] == *x {
            assert(strings_view(v@)[i as int] == x@);
            return true;
        }
    }
    assert(!strings_view(v@).contains(x@)) by {
        if strings_view(v@).contains(x@) {
            let j = choose|j: int| 0 <= j < strings_view(v@).len() && strings_view(v@)[j] == x@;
            assert(v@[j]@ == x@);
        }
    }
    false
}

fn ticket_position(v: &Vec<PrefetchTicket>, k: &String) -> (r: Option<usize>)
    ensures
        match r {
            Some(i) => key_index(tickets_view(v@), k@) is Some && i < v@.len() && v@[i as int].story_id@ == k@,
            None => key_index(tickets_view(v@), k@) is None,
        },
{
    for i in 0..v.len()
        invariant
            forall|j: int| 0 <= j < i ==> v@[j].story_id@ != k@,
    {
        if v[i].story_id == *k {
            assert(tickets_view(v@)[i as int].0 == k@);
            return Some(i);
        }
    }
    assert(key_index(tickets_view(v@), k@) is None) by {
        if exists|i: int| 0 <= i < tickets_view(v@).len() && #[trigger] tickets_view(v@)[i].0 == k@ {
            let j = choose|i: int| 0 <= i < tickets_view(v@).len() && #[trigger] tickets_view(v@)[i].0 == k@;
            assert(v@[j].story_id@ == k@);
        }
    }
    None
}

fn cache_contains(v: &Vec<CachedThread>, k: &String) -> (r: bool)
    ensures
        r == cache_has(cache_view(v@), k@),
{
    for i in 0..v.len()
        invariant
            forall|j: int| 0 <= j < i ==> v@[j].story_id@ != k@,
    {
        if v[i].story_id == *k {
            assert(cache_view(v@)[i as int].0 == k@);
            return true;
        }
    }
    assert(!cache_has(cache_view(v@), k@)) by {
        if cache_has(cache_view(v@), k@) {
            let j = choose|i: int| 0 <= i < cache_view(v@).len() && #[trigger] cache_view(v@)[i].0 == k@;
            assert(v@[j].story_id@ == k@);
        }
    }
    false
}


/// No story id is recorded twice in the prefetch bookkeeping.
pub open spec fn keys_unique(a: AppV) -> bool {
    &&& a.in_flight.no_duplicates()
    &&& forall|i: int, j: int|
        0 <= i < a.generations.len() && 0 <= j < a.generations.len() && i != j
            ==> #[trigger] a.generations[i].0 != #[trigger] a.generations[j].0
    &&& forall|i: int, j: int|
        0 <= i < a.cache.len() && 0 <= j < a.cache.len() && i != j ==> #[trigger] a.cache[i].0
            != #[trigger] a.cache[j].0
}

proof fn lemma_keys_unique_same(a: AppV, b: AppV)
    requires
        keys_unique(a),
        a.in_flight == b.in_flight,
        a.generations == b.generations,
        a.cache == b.cache,
    ensures
        keys_unique(b),
{
}

/// The indices of `[lo, hi)` nearest to `sel` first.
fn nearest_first_order(lo: usize, hi: usize, sel: usize) -> (r: Vec<usize>)
    requires
        lo <= hi,
    ensures
        idx_view(r@) == nearest_first(
            (if sel < hi { sel as int } else { hi as int }) - 1,
            if sel > lo { sel as int } else { lo as int },
            lo as int,
            hi as int,
            sel as int,
        ),
        forall|k: int| 0 <= k < r@.len() ==> lo <= #[trigger] r@[k] < hi,
{
    let ghost total = nearest_first(
        (if sel < hi { sel as int } else { hi as int }) - 1,
        if sel > lo { sel as int } else { lo as int },
        lo as int,
        hi as int,
        sel as int,
    );
    let mut left_end: usize = if sel < hi { sel } else { hi };
    let mut right: usize = if sel > lo { sel } else { lo };
    if left_end < lo {
        left_end = lo;
    }
    let mut out: Vec<usize> = Vec::new();
    assert(nearest_first(left_end - 1, right as int, lo as int, hi as int, sel as int) == total) by {
        let l0 = (if sel < hi { sel as int } else { hi as int }) - 1;
        if l0 < lo {
            lemma_nearest_left_gone(l0, left_end - 1, right as int, lo as int, hi as int, sel as int);
        }
    }
    loop
        invariant
            lo <= left_end <= hi,
            lo <= right,
            left_end > lo ==> left_end <= sel,
            right >= sel,
            total == nearest_first(
                (if sel < hi { sel as int } else { hi as int }) - 1,
                if sel > lo { sel as int } else { lo as int },
                lo as int,
                hi as int,
                sel as int,
            ),
            idx_view(out@) + nearest_first(left_end - 1, right as int, lo as int, hi as int, sel as int)
                == total,
            forall|k: int| 0 <= k < out@.len() ==> lo <= #[trigger] out@[k] < hi,
        decreases (left_end - lo) + (if right < hi { hi - right } else { 0 }),
    {
        let ghost cur = nearest_first(left_end - 1, right as int, lo as int, hi as int, sel as int);
        let has_left = left_end > lo;
        let has_right = right < hi;
        if !has_left && !has_right {
            assert(cur =~= Seq::<int>::empty());
            assert(idx_view(out@) =~= total);
            return out;
        }
        let take_left = !has_right || (has_left && sel - (left_end - 1) <= right - sel);
        let ghost before = out@;
        if take_left {
            out.push(left_end - 1);
            left_end = left_end - 1;
        } else {
            out.push(right);
            right = right + 1;
        }
        assert(idx_view(out@) =~= idx_view(before).push(out@.last() as int));
        assert(idx_view(out@) + nearest_first(left_end - 1, right as int, lo as int, hi as int, sel as int)
            =~= idx_view(before) + cur);
    }
}

proof fn lemma_nearest_left_gone(l: int, l2: int, r: int, lo: int, hi: int, sel: int)
    requires
        l < lo,
        l2 < lo,
    ensures
        nearest_first(l, r, lo, hi, sel) == nearest_first(l2, r, lo, hi, sel),
    decreases (if r < hi { hi - r } else { 0 }),
{
    if r < hi {
        lemma_nearest_left_gone(l, l2, r + 1, lo, hi, sel);
    }
}

impl App {
    /// Whether the thread of `story` may be prefetched.
    pub fn can_prefetch_story(&self, story: &Story) -> (r: bool)
        ensures
            r == can_prefetch_spec(self@, story@),
    {
        if story.comment_count <= 0 {
            return false;
        }
        if cache_contains(&self.prefetched_comments_cache, &story.short_id) {
            return false;
        }
        if contains_text(&self.comment_prefetch_in_flight_ids, &story.short_id) {
            return false;
        }
        true
    }

    /// Whether a prefetch of the thread of `story_id` is under way.
    pub fn is_comment_prefetching_for_story(&self, story_id: &String) -> (r: bool)
        ensures
            r == self@.in_flight.contains(story_id@),
    {
        contains_text(&self.comment_prefetch_in_flight_ids, story_id)
    }

    /// The visible stories whose threads may be prefetched, nearest to the selection
    /// first.
    pub fn prefetch_story_candidates(&self) -> (r: Vec<Story>)
        ensures
            stories_view(r@) == prefetch_candidates_spec(self@),
    {
        let len = self.stories.len();
        if len == 0 {
            let out: Vec<Story> = Vec::new();
            assert(stories_view(out@) =~= Seq::<StoryV>::empty());
            return out;
        }
        let offset = if self.story_list_state.offset < len { self.story_list_state.offset } else { len };
        let page_size = if self.story_page_size == 0 { 1 } else { self.story_page_size };
        let end = if len - offset > page_size { offset + page_size } else { len };
        let selected = match self.story_list_state.selected {
            Some(i) => i,
            None => offset,
        };
        let order = nearest_first_order(offset, end, selected);
        let ghost ord = idx_view(order@);
        assert(ord == candidate_order(self@));
        let mut out: Vec<Story> = Vec::new();
        for k in 0..order.len()
            invariant
                ord == idx_view(order@),
                ord == candidate_order(self@),
                len == self.stories.len(),
                forall|m: int| 0 <= m < order@.len() ==> #[trigger] order@[m] < len,
                stories_view(out@) == filter_candidates(self@, ord, k as int),
        {
            let idx = order[k];
            let story = &self.stories[idx];
            assert(self@.stories[ord[k as int]] == story@);
            if self.can_prefetch_story(story) {
                let ghost prev = out@;
                let copy = story.duplicate();
                out.push(copy);
                assert(stories_view(out@) =~= stories_view(prev).push(copy@));
            }
        }
        out
    }

    /// Records a prefetch of the thread of `story_id` as under way and asks for it.
    pub fn start_comment_prefetch(&mut self, story_id: String, effects: &mut Vec<Effect>)
        requires
            keys_unique(old(self)@),
        ensures
            final(self)@ == start_prefetch_spec(old(self)@, story_id@).0,
            effects_view(final(effects)@) == effects_view(old(effects)@) + start_prefetch_spec(
                old(self)@,
                story_id@,
            ).1,
            keys_unique(final(self)@),
    {
        self.comments_prefetch_generation = bump(self.comments_prefetch_generation);
        let generation = self.comments_prefetch_generation;
        insert_text(&mut self.comment_prefetch_in_flight_ids, &story_id);
        assert(tickets_view(self.comment_prefetch_generations@) == old(self)@.generations);
        insert_ticket(&mut self.comment_prefetch_generations, &story_id, generation);
        let e = Effect::PrefetchComments { generation, story_id };
        let ghost before = effects@;
        effects.push(e);
        assert(effects_view(effects@) =~= effects_view(before).push(e@));
    }
}

/// Adds `x` to the set `v` (no repeats kept).
fn insert_text(v: &mut Vec<String>, x: &String)
    requires
        strings_view(old(v)@).no_duplicates(),
    ensures
        strings_view(final(v)@) == set_insert(strings_view(old(v)@), x@),
        strings_view(final(v)@).no_duplicates(),
{
    if !contains_text(v, x) {
        let ghost prev = v@;
        v.push(x.clone());
        assert(strings_view(v@) =~= strings_view(prev).push(x@));
    }
}

/// Records generation `g` for `k`, replacing an earlier one.
fn insert_ticket(v: &mut Vec<PrefetchTicket>, k: &String, g: u64)
    requires
        forall|i: int, j: int|
            0 <= i < tickets_view(old(v)@).len() && 0 <= j < tickets_view(old(v)@).len() && i != j
                ==> #[trigger] tickets_view(old(v)@)[i].0 != #[trigger] tickets_view(old(v)@)[j].0,
    ensures
        tickets_view(final(v)@) == ticket_insert(tickets_view(old(v)@), k@, g),
        forall|i: int, j: int|
            0 <= i < tickets_view(final(v)@).len() && 0 <= j < tickets_view(final(v)@).len() && i
                != j ==> #[trigger] tickets_view(final(v)@)[i].0 != #[trigger] tickets_view(
                final(v)@,
            )[j].0,
{
    let ghost prev = v@;
    let ghost tv = tickets_view(prev);
    let ticket = PrefetchTicket { story_id: k.clone(), generation: g };
    match ticket_position(v, k) {
        Some(i) => {
            assert(key_index(tv, k@) == Some(i as int)) by {
                let c = choose|j: int| 0 <= j < tv.len() && #[trigger] tv[j].0 == k@;
                if c != i as int {
                    assert(tv[c].0 != tv[i as int].0);
                }
            }
            v.set(i, ticket);
            assert(tickets_view(v@) =~= tv.update(i as int, (k@, g)));
        },
        None => {
            v.push(ticket);
            assert(tickets_view(v@) =~= tv.push((k@, g)));
            assert forall|i: int, j: int|
                0 <= i < tickets_view(v@).len() && 0 <= j < tickets_view(v@).len() && i != j
                    implies #[trigger] tickets_view(v@)[i].0 != #[trigger] tickets_view(v@)[j].0 by {
                if i == tv.len() {
                    assert(tv[j].0 != k@);
                } else if j == tv.len() {
                    assert(tv[i].0 != k@);
                }
            }
        },
    }
}


impl App {
    /// Whether the user has been idle long enough for prefetching at `now`.
    pub fn is_idle_for_prefetch(&self, now: u64) -> (r: bool)
        ensures
            r == (elapsed(now, self.last_user_activity) >= IDLE_PREFETCH_DELAY),
    {
        if now >= self.last_user_activity {
            now - self.last_user_activity >= IDLE_PREFETCH_DELAY
        } else {
            false
        }
    }

    /// Prefetches the threads of the visible stories nearest the selection, while the
    /// story list is shown, the user is idle and fewer than the maximum are under way.
    pub fn maybe_prefetch_comments(&mut self, now: u64, effects: &mut Vec<Effect>)
        requires
            keys_unique(old(self)@),
        ensures
            final(self)@ == prefetch_comments_spec(old(self)@, now).0,
            effects_view(final(effects)@) == effects_view(old(effects)@) + prefetch_comments_spec(
                old(self)@,
                now,
            ).1,
            keys_unique(final(self)@),
    {
        let ghost a0 = self@;
        let ghost e0 = effects_view(effects@);
        assert(e0 + Seq::<EffectV>::empty() =~= e0);
        if self.view != screen::View::Stories {
            return;
        }
        if self.comment_prefetch_in_flight_ids.len() >= MAX_COMMENT_PREFETCH_IN_FLIGHT {
            return;
        }
        if self.story_loading && self.stories.len() == 0 {
            return;
        }
        if !self.is_idle_for_prefetch(now) {
            return;
        }
        let candidates = self.prefetch_story_candidates();
        let ghost cs = stories_view(candidates@);
        if candidates.len() == 0 {
            assert(start_prefetches_spec(a0, cs, 0) == (a0, Seq::<EffectV>::empty()));
            return;
        }
        let ghost target = start_prefetches_spec(a0, cs, 0);
        let mut k: usize = 0;
        while k < candidates.len()
            invariant
                0 <= k <= candidates.len(),
                cs == stories_view(candidates@),
                keys_unique(self@),
                start_prefetches_spec(self@, cs, k as int).0 == target.0,
                effects_view(effects@) + start_prefetches_spec(self@, cs, k as int).1 == e0
                    + target.1,
            ensures
                0 <= k <= candidates.len(),
                keys_unique(self@),
                start_prefetches_spec(self@, cs, k as int).0 == target.0,
                effects_view(effects@) + start_prefetches_spec(self@, cs, k as int).1 == e0
                    + target.1,
                k == candidates.len() || self@.in_flight.len() >= MAX_COMMENT_PREFETCH_IN_FLIGHT,
            decreases candidates.len() - k,
        {
            if self.comment_prefetch_in_flight_ids.len() >= MAX_COMMENT_PREFETCH_IN_FLIGHT {
                break;
            }
            let ghost before_state = self@;
            let ghost before_effects = effects_view(effects@);
            let id = candidates[k].short_id.clone();
            assert(cs[k as int].short_id == id@);
            self.start_comment_prefetch(id, effects);
            proof {
                let (a1, e1) = start_prefetch_spec(before_state, cs[k as int].short_id);
                let (a2, e2) = start_prefetches_spec(a1, cs, k + 1);
                assert(start_prefetches_spec(before_state, cs, k as int) == (a2, e1 + e2));
                assert(before_effects + (e1 + e2) =~= (before_effects + e1) + e2);
            }
            k = k + 1;
        }
        proof {
            assert(start_prefetches_spec(self@, cs, k as int).1 =~= Seq::<EffectV>::empty());
            assert(effects_view(effects@) + Seq::<EffectV>::empty() =~= effects_view(effects@));
        }
    }
}


/// The comments view of `st` shown while its prefetch is under way.
pub open spec fn await_prefetch_spec(a: AppV, st: StoryV) -> AppV {
    let a1 = AppV {
        awaiting: Some(st.short_id),
        view: screen::View::Comments,
        last_error: None,
        current_story: Some(st),
        comment_loading: true,
        ..a
    };
    if same_story(a.current_story, st.short_id) {
        a1
    } else {
        reset_comments_spec(a1)
    }
}

/// `open_comments_for_selected_story`.
pub open spec fn open_comments_spec(a: AppV) -> (AppV, Seq<EffectV>) {
    match selected_story_index(a) {
        None => (a, Seq::empty()),
        Some(i) => {
            let st = a.stories[i];
            if same_story(a.current_story, st.short_id) && a.comment_tree.len() > 0 {
                (AppV { view: screen::View::Comments, ..a }, Seq::empty())
            } else {
                match key_index(a.cache, st.short_id) {
                    Some(j) => (
                        apply_comments_spec(
                            AppV { cache: a.cache.remove(j), ..a },
                            a.cache[j].1.0,
                            a.cache[j].1.1,
                            true,
                        ),
                        Seq::empty(),
                    ),
                    None => if a.in_flight.contains(st.short_id) {
                        (await_prefetch_spec(a, st), Seq::empty())
                    } else {
                        load_comments_spec(a, st, true)
                    },
                }
            }
        },
    }
}

proof fn lemma_cache_keys_after_remove(c: Seq<(Seq<char>, (StoryV, Seq<NodeV>))>, j: int)
    requires
        0 <= j < c.len(),
        forall|i: int, k: int|
            0 <= i < c.len() && 0 <= k < c.len() && i != k ==> #[trigger] c[i].0 != #[trigger] c[k].0,
    ensures
        forall|i: int, k: int|
            0 <= i < c.remove(j).len() && 0 <= k < c.remove(j).len() && i != k
                ==> #[trigger] c.remove(j)[i].0 != #[trigger] c.remove(j)[k].0,
{
    let r = c.remove(j);
    assert forall|i: int, k: int| 0 <= i < r.len() && 0 <= k < r.len() && i != k implies #[trigger] r[i].0
        != #[trigger] r[k].0 by {
        let ii = if i < j { i } else { i + 1 };
        let kk = if k < j { k } else { k + 1 };
        assert(r[i] == c[ii] && r[k] == c[kk]);
    }
}

/// Takes the kept thread of `k` out of the cache.
fn cache_take(v: &mut Vec<CachedThread>, k: &String) -> (r: Option<CachedThread>)
    requires
        forall|i: int, j: int|
            0 <= i < cache_view(old(v)@).len() && 0 <= j < cache_view(old(v)@).len() && i != j
                ==> #[trigger] cache_view(old(v)@)[i].0 != #[trigger] cache_view(old(v)@)[j].0,
    ensures
        match key_index(cache_view(old(v)@), k@) {
            Some(j) => r matches Some(t) && cache_view(final(v)@) == cache_view(old(v)@).remove(j)
                && t.story@ == cache_view(old(v)@)[j].1.0 && nodes_view(t.comments@) == cache_view(
                old(v)@,
            )[j].1.1,
            None => r is None && final(v)@ == old(v)@,
        },
{
    let ghost cv = cache_view(v@);
    let mut i: usize = 0;
    while i < v.len()
        invariant
            cv == cache_view(v@),
            v@ == old(v)@,
            forall|a: int, b: int|
                0 <= a < cv.len() && 0 <= b < cv.len() && a != b ==> #[trigger] cv[a].0
                    != #[trigger] cv[b].0,
            forall|m: int| 0 <= m < i ==> cv[m].0 != k@,
        decreases v.len() - i,
    {
        if v[i].story_id == *k {
            assert(cv[i as int].0 == k@);
            assert(key_index(cv, k@) == Some(i as int)) by {
                let c = choose|j: int| 0 <= j < cv.len() && #[trigger] cv[j].0 == k@;
                if c != i as int {
                    assert(cv[c].0 != cv[i as int].0);
                }
            }
            let t = v.remove(i);
            assert(cache_view(v@) =~= cv.remove(i as int));
            return Some(t);
        }
        i = i + 1;
    }
    assert(key_index(cv, k@) is None) by {
        if exists|j: int| 0 <= j < cv.len() && #[trigger] cv[j].0 == k@ {
            let j = choose|j: int| 0 <= j < cv.len() && #[trigger] cv[j].0 == k@;
            assert(cv[j].0 != k@);
        }
    }
    None
}

impl App {
    /// Opens the thread of the selected story: at once where it is shown or kept,
    /// waiting for a prefetch under way, else by loading it.
    #[verifier::rlimit(40)]
    pub fn open_comments_for_selected_story(&mut self, effects: &mut Vec<Effect>)
        requires
            keys_unique(old(self)@),
        ensures
            final(self)@ == open_comments_spec(old(self)@).0,
            effects_view(final(effects)@) == effects_view(old(effects)@) + open_comments_spec(
                old(self)@,
            ).1,
            keys_unique(final(self)@),
    {
        let ghost a = self@;
        assert(effects_view(effects@) + Seq::<EffectV>::empty() =~= effects_view(effects@));
        let story = match self.selected_story() {
            Some(s) => s.duplicate(),
            None => return,
        };
        let same = match &self.current_story {
            Some(s) => s.short_id == story.short_id,
            None => false,
        };
        if same && self.comment_tree.len() > 0 {
            self.view = screen::View::Comments;
            return;
        }
        let ghost cv = self@.cache;
        match cache_take(&mut self.prefetched_comments_cache, &story.short_id) {
            Some(t) => {
                proof {
                    let j = key_index(cv, story@.short_id)->0;
                    lemma_cache_keys_after_remove(cv, j);
                }
                self.apply_comments_for_story(t.story, t.comments, true);
                return;
            },
            None => {},
        }
        if contains_text(&self.comment_prefetch_in_flight_ids, &story.short_id) {
            self.await_prefetch(story);
            return;
        }
        self.load_comments_for_story(story, true, effects);
    }

    fn await_prefetch(&mut self, story: Story)
        ensures
            final(self)@ == await_prefetch_spec(old(self)@, story@),
    {
        let same = match &self.current_story {
            Some(s) => s.short_id == story.short_id,
            None => false,
        };
        self.awaiting_prefetch_story_id = Some(story.short_id.clone());
        self.view = screen::View::Comments;
        self.last_error = None;
        self.current_story = Some(story);
        self.comment_loading = true;
        if !same {
            self.reset_comment_state();
        }
    }
}


/// A fetch answered, tagged with the generation that asked for it.
pub enum AppEvent {
    StoriesLoaded {
        generation: u64,
        mode: StoriesLoadMode,
        stories: Vec<Story>,
        next_page: usize,
        end_reached: bool,
    },
    CommentsLoaded { generation: u64, story_id: String, story: Story, comments: Vec<CommentNode> },
    CommentsPrefetched {
        generation: u64,
        story_id: String,
        story: Story,
        comments: Vec<CommentNode>,
    },
    Error { generation: u64, message: String },
    PrefetchError { generation: u64, story_id: String, message: String },
}

pub ghost enum AppEventV {
    StoriesLoaded {
        generation: u64,
        mode: StoriesLoadMode,
        stories: Seq<StoryV>,
        next_page: usize,
        end_reached: bool,
    },
    CommentsLoaded { generation: u64, story_id: Seq<char>, story: StoryV, comments: Seq<NodeV> },
    CommentsPrefetched { generation: u64, story_id: Seq<char>, story: StoryV, comments: Seq<NodeV> },
    Error { generation: u64, message: Seq<char> },
    PrefetchError { generation: u64, story_id: Seq<char>, message: Seq<char> },
}

impl View for AppEvent {
    type V = AppEventV;

    open spec fn view(&self) -> AppEventV {
        match self {
            AppEvent::StoriesLoaded { generation, mode, stories, next_page, end_reached } =>
                AppEventV::StoriesLoaded {
                generation: *generation,
                mode: *mode,
                stories: stories_view(stories@),
                next_page: *next_page,
                end_reached: *end_reached,
            },
            AppEvent::CommentsLoaded { generation, story_id, story, comments } =>
                AppEventV::CommentsLoaded {
                generation: *generation,
                story_id: story_id@,
                story: story@,
                comments: nodes_view(comments@),
            },
            AppEvent::CommentsPrefetched { generation, story_id, story, comments } =>
                AppEventV::CommentsPrefetched {
                generation: *generation,
                story_id: story_id@,
                story: story@,
                comments: nodes_view(comments@),
            },
            AppEvent::Error { generation, message } => AppEventV::Error {
                generation: *generation,
                message: message@,
            },
            AppEvent::PrefetchError { generation, story_id, message } =>
                AppEventV::PrefetchError {
                generation: *generation,
                story_id: story_id@,
                message: message@,
            },
        }
    }
}

/// The first story of `s` with id `id`.
pub open spec fn first_story_with_id(s: Seq<StoryV>, id: Seq<char>) -> Option<int> {
    if exists|k: int| 0 <= k < s.len() && #[trigger] s[k].short_id == id {
        Some(
            choose|k: int|
                0 <= k < s.len() && #[trigger] s[k].short_id == id && forall|j: int|
                    0 <= j < k ==> s[j].short_id != id,
        )
    } else {
        None
    }
}

/// `m` with `k` mapped to `v` (the earlier entry for `k` replaced).
pub open spec fn cache_insert(
    m: Seq<(Seq<char>, (StoryV, Seq<NodeV>))>,
    k: Seq<char>,
    v: (StoryV, Seq<NodeV>),
) -> Seq<(Seq<char>, (StoryV, Seq<NodeV>))> {
    match key_index(m, k) {
        Some(i) => m.update(i, (k, v)),
        None => m.push((k, v)),
    }
}

/// A loaded page of stories taken in, for the current stories generation.
pub open spec fn stories_loaded_spec(
    a: AppV,
    mode: StoriesLoadMode,
    stories: Seq<StoryV>,
    next_page: usize,
    end_reached: bool,
    now: u64,
) -> (AppV, Seq<EffectV>) {
    let a1 = AppV {
        story_loading: false,
        prefetch_in_flight: false,
        last_error: None,
        story_next_page: if next_page > 1 { next_page } else { 1 },
        story_end_reached: end_reached,
        ..a
    };
    let a2 = match mode {
        StoriesLoadMode::Replace => {
            let idx: int = match a.pending_selection {
                Some(id) => match first_story_with_id(stories, id) {
                    Some(k) => k,
                    None => 0,
                },
                None => 0,
            };
            AppV {
                stories,
                cache: Seq::empty(),
                in_flight: Seq::empty(),
                generations: Seq::empty(),
                pending_selection: None,
                story_list_state: ListSelection { selected: Some(idx as usize), offset: 0 },
                ..a1
            }
        },
        StoriesLoadMode::Append => AppV { stories: a1.stories + stories, ..a1 },
    };
    let a3 = AppV {
        story_list_state: ensure_visible_spec(
            a2.story_list_state,
            a2.stories.len() as usize,
            a2.story_page_size,
        ),
        ..a2
    };
    let (a4, e4) = prefetch_comments_spec(a3, now);
    (a4, save_stories_spec(a3) + e4)
}

/// `handle_app_event`: a fetch answered. An answer whose generation is not the one
/// the state waits for changes nothing.
pub open spec fn app_event_spec(a: AppV, ev: AppEventV, now: u64) -> (AppV, Seq<EffectV>) {
    match ev {
        AppEventV::StoriesLoaded { generation, mode, stories, next_page, end_reached } => {
            if generation != a.stories_generation {
                (a, Seq::empty())
            } else {
                stories_loaded_spec(a, mode, stories, next_page, end_reached, now)
            }
        },
        AppEventV::CommentsLoaded { generation, story_id, story, comments } => {
            if generation != a.comments_generation || (a.current_story matches Some(c)
                && c.short_id != story_id) {
                (a, Seq::empty())
            } else {
                (apply_comments_spec(a, story, comments, false), Seq::empty())
            }
        },
        AppEventV::CommentsPrefetched { generation, story_id, story, comments } => {
            if ticket_get(a.generations, story_id) != Some(generation) {
                (a, Seq::empty())
            } else {
                let a1 = AppV {
                    in_flight: set_remove(a.in_flight, story_id),
                    generations: ticket_remove(a.generations, story_id),
                    ..a
                };
                if a.awaiting == Some(story_id) {
                    (apply_comments_spec(a1, story, comments, false), Seq::empty())
                } else {
                    prefetch_comments_spec(
                        AppV { cache: cache_insert(a1.cache, story_id, (story, comments)), ..a1 },
                        now,
                    )
                }
            }
        },
        AppEventV::Error { generation, message } => {
            if generation != a.stories_generation && generation != a.comments_generation {
                (a, Seq::empty())
            } else {
                (
                    AppV {
                        story_loading: false,
                        prefetch_in_flight: false,
                        comment_loading: false,
                        last_error: Some(message),
                        ..a
                    },
                    seq![EffectV::LogError { message: "load error: "@ + message }],
                )
            }
        },
        AppEventV::PrefetchError { generation, story_id, message } => {
            if ticket_get(a.generations, story_id) != Some(generation) {
                (a, Seq::empty())
            } else {
                let a1 = AppV {
                    in_flight: set_remove(a.in_flight, story_id),
                    generations: ticket_remove(a.generations, story_id),
                    ..a
                };
                let a2 = if a.awaiting == Some(story_id) {
                    AppV { awaiting: None, comment_loading: false, ..a1 }
                } else {
                    a1
                };
                let (a3, e3) = prefetch_comments_spec(AppV { last_error: Some(message), ..a2 }, now);
                (
                    a3,
                    seq![
                        EffectV::LogError {
                            message: "prefetch error story_id="@ + story_id + ": "@ + message,
                        },
                    ] + e3,
                )
            }
        },
    }
}

proof fn lemma_set_remove(s: Seq<Seq<char>>, x: Seq<char>)
    ensures
        forall|y: Seq<char>| set_remove(s, x).contains(y) <==> s.contains(y) && y != x,
        s.no_duplicates() ==> set_remove(s, x).no_duplicates(),
    decreases s.len(),
{
    if s.len() > 0 {
        lemma_set_remove(s.drop_last(), x);
        let p = s.drop_last();
        assert forall|y: Seq<char>| s.contains(y) <==> p.contains(y) || y == s.last() by {
            if s.contains(y) {
                let k = choose|k: int| 0 <= k < s.len() && s[k] == y;
                if k < p.len() {
                    assert(p[k] == y);
                }
            }
            if p.contains(y) {
                let k = choose|k: int| 0 <= k < p.len() && p[k] == y;
                assert(s[k] == y);
            }
            if y == s.last() {
                assert(s[s.len() - 1] == y);
            }
        }
        let r = set_remove(p, x);
        if s.last() != x {
            assert forall|y: Seq<char>| r.push(s.last()).contains(y) <==> r.contains(y) || y
                == s.last() by {
                if r.push(s.last()).contains(y) {
                    let k = choose|k: int| 0 <= k < r.push(s.last()).len() && r.push(s.last())[k] == y;
                    if k < r.len() {
                        assert(r[k] == y);
                    }
                }
                if r.contains(y) {
                    let k = choose|k: int| 0 <= k < r.len() && r[k] == y;
                    assert(r.push(s.last())[k] == y);
                }
                if y == s.last() {
                    assert(r.push(s.last())[r.len() as int] == y);
                }
            }
            if s.no_duplicates() {
                assert(!p.contains(s.last())) by {
                    if p.contains(s.last()) {
                        let k = choose|k: int| 0 <= k < p.len() && p[k] == s.last();
                        assert(s[k] == s[s.len() - 1]);
                    }
                }
                assert(p.no_duplicates()) by {
                    assert forall|i: int, j: int| 0 <= i < p.len() && 0 <= j < p.len() && i != j implies p[i] != p[j] by {
                        assert(p[i] == s[i] && p[j] == s[j]);
                    }
                }
                let q = r.push(s.last());
                assert forall|i: int, j: int| 0 <= i < q.len() && 0 <= j < q.len() && i != j implies q[i] != q[j] by {
                    if i == r.len() {
                        assert(r.contains(q[j]));
                    } else if j == r.len() {
                        assert(r.contains(q[i]));
                    }
                }
            }
        } else {
            if s.no_duplicates() {
                assert(p.no_duplicates()) by {
                    assert forall|i: int, j: int| 0 <= i < p.len() && 0 <= j < p.len() && i != j implies p[i] != p[j] by {
                        assert(p[i] == s[i] && p[j] == s[j]);
                    }
                }
            }
        }
    }
}

/// Takes `x` out of the set `v`.
fn remove_text(v: &mut Vec<String>, x: &String)
    ensures
        strings_view(final(v)@) == set_remove(strings_view(old(v)@), x@),
        strings_view(old(v)@).no_duplicates() ==> strings_view(final(v)@).no_duplicates(),
{
    let ghost sv = strings_view(v@);
    let mut out: Vec<String> = Vec::new();
    for i in 0..v.len()
        invariant
            sv == strings_view(v@),
            strings_view(out@) == set_remove(sv.take(i as int), x@),
    {
        assert(sv.take(i + 1).drop_last() =~= sv.take(i as int));
        if v[i] != *x {
            let ghost prev = out@;
            out.push(v[i].clone());
            assert(strings_view(out@) =~= strings_view(prev).push(v@[i as int]@));
        }
    }
    assert(sv.take(v.len() as int) =~= sv);
    proof {
        lemma_set_remove(sv, x@);
    }
    *v = out;
}

pub open spec fn ticket_keys(m: Seq<(Seq<char>, u64)>) -> Seq<Seq<char>> {
    m.map_values(|e: (Seq<char>, u64)| e.0)
}

proof fn lemma_ticket_keys_remove(m: Seq<(Seq<char>, u64)>, k: Seq<char>)
    ensures
        ticket_keys(ticket_remove(m, k)) == set_remove(ticket_keys(m), k),
    decreases m.len(),
{
    if m.len() > 0 {
        lemma_ticket_keys_remove(m.drop_last(), k);
        assert(ticket_keys(m).drop_last() =~= ticket_keys(m.drop_last()));
        if m.last().0 != k {
            assert(ticket_keys(ticket_remove(m.drop_last(), k).push(m.last())) =~= ticket_keys(
                ticket_remove(m.drop_last(), k),
            ).push(m.last().0));
        }
    } else {
        assert(ticket_keys(m) =~= Seq::<Seq<char>>::empty());
    }
}

proof fn lemma_unique_keys_iff(m: Seq<(Seq<char>, u64)>)
    ensures
        ticket_keys(m).no_duplicates() <==> (forall|i: int, j: int|
            0 <= i < m.len() && 0 <= j < m.len() && i != j ==> #[trigger] m[i].0 != #[trigger] m[j].0),
{
    let ks = ticket_keys(m);
    if ks.no_duplicates() {
        assert forall|i: int, j: int| 0 <= i < m.len() && 0 <= j < m.len() && i != j implies #[trigger] m[i].0
            != #[trigger] m[j].0 by {
            assert(ks[i] == m[i].0 && ks[j] == m[j].0);
        }
    }
    if forall|i: int, j: int| 0 <= i < m.len() && 0 <= j < m.len() && i != j ==> #[trigger] m[i].0
        != #[trigger] m[j].0 {
        assert forall|i: int, j: int| 0 <= i < ks.len() && 0 <= j < ks.len() && i != j implies ks[i]
            != ks[j] by {
            assert(ks[i] == m[i].0 && ks[j] == m[j].0);
        }
    }
}

/// Drops the generation recorded for `k`.
fn remove_ticket(v: &mut Vec<PrefetchTicket>, k: &String)
    ensures
        tickets_view(final(v)@) == ticket_remove(tickets_view(old(v)@), k@),
{
    let ghost tv = tickets_view(v@);
    let mut out: Vec<PrefetchTicket> = Vec::new();
    for i in 0..v.len()
        invariant
            tv == tickets_view(v@),
            tickets_view(out@) == ticket_remove(tv.take(i as int), k@),
    {
        assert(tv.take(i + 1).drop_last() =~= tv.take(i as int));
        if v[i].story_id != *k {
            let ghost prev = out@;
            let t = PrefetchTicket { story_id: v[i].story_id.clone(), generation: v[i].generation };
            out.push(t);
            assert(tickets_view(out@) =~= tickets_view(prev).push(tv[i as int]));
        }
    }
    assert(tv.take(v.len() as int) =~= tv);
    *v = out;
}

/// Keeps the fetched thread of `k`, replacing an earlier one.
fn cache_put(v: &mut Vec<CachedThread>, k: String, story: Story, comments: Vec<CommentNode>)
    requires
        forall|i: int, j: int|
            0 <= i < cache_view(old(v)@).len() && 0 <= j < cache_view(old(v)@).len() && i != j
                ==> #[trigger] cache_view(old(v)@)[i].0 != #[trigger] cache_view(old(v)@)[j].0,
    ensures
        cache_view(final(v)@) == cache_insert(cache_view(old(v)@), k@, (story@, nodes_view(comments@))),
        forall|i: int, j: int|
            0 <= i < cache_view(final(v)@).len() && 0 <= j < cache_view(final(v)@).len() && i != j
                ==> #[trigger] cache_view(final(v)@)[i].0 != #[trigger] cache_view(final(v)@)[j].0,
{
    let ghost cv = cache_view(v@);
    let ghost entry = (k@, (story@, nodes_view(comments@)));
    let mut i: usize = 0;
    while i < v.len()
        invariant
            cv == cache_view(v@),
            v@ == old(v)@,
            entry == (k@, (story@, nodes_view(comments@))),
            forall|a: int, b: int|
                0 <= a < cv.len() && 0 <= b < cv.len() && a != b ==> #[trigger] cv[a].0
                    != #[trigger] cv[b].0,
            forall|m: int| 0 <= m < i ==> cv[m].0 != k@,
        decreases v.len() - i,
    {
        if v[i].story_id == k {
            assert(cv[i as int].0 == k@);
            assert(key_index(cv, k@) == Some(i as int)) by {
                let c = choose|j: int| 0 <= j < cv.len() && #[trigger] cv[j].0 == k@;
                if c != i as int {
                    assert(cv[c].0 != cv[i as int].0);
                }
            }
            let t = CachedThread { story_id: k, story, comments };
            v.set(i, t);
            assert(cache_view(v@) =~= cv.update(i as int, entry));
            return;
        }
        i = i + 1;
    }
    assert(key_index(cv, k@) is None) by {
        if exists|j: int| 0 <= j < cv.len() && #[trigger] cv[j].0 == k@ {
            let j = choose|j: int| 0 <= j < cv.len() && #[trigger] cv[j].0 == k@;
            assert(cv[j].0 != k@);
        }
    }
    let t = CachedThread { story_id: k, story, comments };
    v.push(t);
    assert(cache_view(v@) =~= cv.push(entry));
    assert forall|a: int, b: int|
        0 <= a < cache_view(v@).len() && 0 <= b < cache_view(v@).len() && a != b
            implies #[trigger] cache_view(v@)[a].0 != #[trigger] cache_view(v@)[b].0 by {
        if a == cv.len() {
            assert(cv[b].0 != k@);
        } else if b == cv.len() {
            assert(cv[a].0 != k@);
        }
    }
}


proof fn lemma_ticket_remove_unique(m: Seq<(Seq<char>, u64)>, k: Seq<char>)
    requires
        forall|i: int, j: int|
            0 <= i < m.len() && 0 <= j < m.len() && i != j ==> #[trigger] m[i].0 != #[trigger] m[j].0,
    ensures
        forall|i: int, j: int|
            0 <= i < ticket_remove(m, k).len() && 0 <= j < ticket_remove(m, k).len() && i != j
                ==> #[trigger] ticket_remove(m, k)[i].0 != #[trigger] ticket_remove(m, k)[j].0,
{
    lemma_unique_keys_iff(m);
    lemma_ticket_keys_remove(m, k);
    lemma_set_remove(ticket_keys(m), k);
    lemma_unique_keys_iff(ticket_remove(m, k));
}

/// The generation recorded for `k`.
fn ticket_lookup(v: &Vec<PrefetchTicket>, k: &String) -> (r: Option<u64>)
    requires
        forall|i: int, j: int|
            0 <= i < tickets_view(v@).len() && 0 <= j < tickets_view(v@).len() && i != j
                ==> #[trigger] tickets_view(v@)[i].0 != #[trigger] tickets_view(v@)[j].0,
    ensures
        r == ticket_get(tickets_view(v@), k@),
{
    let ghost tv = tickets_view(v@);
    match ticket_position(v, k) {
        Some(i) => {
            assert(tv[i as int].0 == k@);
            assert(key_index(tv, k@) == Some(i as int)) by {
                let c = choose|j: int| 0 <= j < tv.len() && #[trigger] tv[j].0 == k@;
                if c != i as int {
                    assert(tv[c].0 != tv[i as int].0);
                }
            }
            Some(v[i].generation)
        },
        None => None,
    }
}

/// Where the first story with id `id` stands.
fn first_story_position(stories: &Vec<Story>, id: &String) -> (r: Option<usize>)
    ensures
        match first_story_with_id(stories_view(stories@), id@) {
            Some(k) => r == Some(k as usize),
            None => r is None,
        },
{
    let ghost sv = stories_view(stories@);
    for k in 0..stories.len()
        invariant
            sv == stories_view(stories@),
            forall|j: int| 0 <= j < k ==> sv[j].short_id != id@,
    {
        if stories[k].short_id == *id {
            assert(sv[k as int].short_id == id@);
            let ghost w = choose|m: int|
                0 <= m < sv.len() && #[trigger] sv[m].short_id == id@ && forall|j: int|
                    0 <= j < m ==> sv[j].short_id != id@;
            assert(w == k) by {
                if w < k {
                    assert(sv[w].short_id != id@);
                } else if w > k {
                    assert(sv[k as int].short_id != id@);
                }
            }
            return Some(k);
        }
    }
    assert(!exists|k: int| 0 <= k < sv.len() && #[trigger] sv[k].short_id == id@);
    None
}

impl App {
    #[verifier::rlimit(60)]
    fn on_stories_loaded(
        &mut self,
        mode: StoriesLoadMode,
        stories: Vec<Story>,
        next_page: usize,
        end_reached: bool,
        now: u64,
        effects: &mut Vec<Effect>,
    )
        requires
            keys_unique(old(self)@),
        ensures
            final(self)@ == stories_loaded_spec(
                old(self)@,
                mode,
                stories_view(stories@),
                next_page,
                end_reached,
                now,
            ).0,
            effects_view(final(effects)@) == effects_view(old(effects)@) + stories_loaded_spec(
                old(self)@,
                mode,
                stories_view(stories@),
                next_page,
                end_reached,
                now,
            ).1,
            keys_unique(final(self)@),
    {
        let ghost e0 = effects_view(effects@);
        self.story_loading = false;
        self.prefetch_in_flight = false;
        self.last_error = None;
        self.story_next_page = if next_page > 1 { next_page } else { 1 };
        self.story_end_reached = end_reached;
        match mode {
            StoriesLoadMode::Replace => {
                let select_idx = match self.pending_story_selection_id.take() {
                    Some(id) => match first_story_position(&stories, &id) {
                        Some(k) => k,
                        None => 0,
                    },
                    None => 0,
                };
                self.stories = stories;
                self.prefetched_comments_cache = Vec::new();
                self.comment_prefetch_in_flight_ids = Vec::new();
                self.comment_prefetch_generations = Vec::new();
                self.story_list_state = ListSelection { selected: Some(select_idx), offset: 0 };
                assert(cache_view(self.prefetched_comments_cache@) =~= Seq::empty());
                assert(strings_view(self.comment_prefetch_in_flight_ids@) =~= Seq::empty());
                assert(tickets_view(self.comment_prefetch_generations@) =~= Seq::empty());
            },
            StoriesLoadMode::Append => {
                let ghost before = stories_view(self.stories@);
                let mut more = stories;
                let ghost added = stories_view(more@);
                self.stories.append(&mut more);
                assert(stories_view(self.stories@) =~= before + added);
            },
        }
        let len = self.stories.len();
        ensure_visible(&mut self.story_list_state, len, self.story_page_size);
        let ghost a3 = self@;
        self.save_story_list_state_background(effects);
        let ghost e1 = effects_view(effects@);
        self.maybe_prefetch_comments(now, effects);
        proof {
            let (a4, e4) = prefetch_comments_spec(a3, now);
            assert(effects_view(effects@) =~= e0 + (save_stories_spec(a3) + e4));
        }
    }

    fn on_comments_prefetched(
        &mut self,
        story_id: String,
        story: Story,
        comments: Vec<CommentNode>,
        now: u64,
        effects: &mut Vec<Effect>,
    )
        requires
            keys_unique(old(self)@),
        ensures
            ({
                let a = old(self)@;
                let a1 = AppV {
                    in_flight: set_remove(a.in_flight, story_id@),
                    generations: ticket_remove(a.generations, story_id@),
                    ..a
                };
                let r = if a.awaiting == Some(story_id@) {
                    (apply_comments_spec(a1, story@, nodes_view(comments@), false), Seq::<EffectV>::empty())
                } else {
                    prefetch_comments_spec(
                        AppV {
                            cache: cache_insert(a1.cache, story_id@, (story@, nodes_view(comments@))),
                            ..a1
                        },
                        now,
                    )
                };
                &&& final(self)@ == r.0
                &&& effects_view(final(effects)@) == effects_view(old(effects)@) + r.1
            }),
            keys_unique(final(self)@),
    {
        proof {
            lemma_set_remove(self@.in_flight, story_id@);
            lemma_ticket_remove_unique(self@.generations, story_id@);
        }
        remove_text(&mut self.comment_prefetch_in_flight_ids, &story_id);
        remove_ticket(&mut self.comment_prefetch_generations, &story_id);
        let awaited = match &self.awaiting_prefetch_story_id {
            Some(id) => *id == story_id,
            None => false,
        };
        if awaited {
            self.apply_comments_for_story(story, comments, false);
            assert(effects_view(effects@) + Seq::<EffectV>::empty() =~= effects_view(effects@));
            return;
        }
        cache_put(&mut self.prefetched_comments_cache, story_id, story, comments);
        self.maybe_prefetch_comments(now, effects);
    }

    fn on_prefetch_error(
        &mut self,
        story_id: String,
        message: String,
        now: u64,
        effects: &mut Vec<Effect>,
    )
        requires
            keys_unique(old(self)@),
        ensures
            ({
                let a = old(self)@;
                let a1 = AppV {
                    in_flight: set_remove(a.in_flight, story_id@),
                    generations: ticket_remove(a.generations, story_id@),
                    ..a
                };
                let a2 = if a.awaiting == Some(story_id@) {
                    AppV { awaiting: None, comment_loading: false, ..a1 }
                } else {
                    a1
                };
                let (a3, e3) = prefetch_comments_spec(AppV { last_error: Some(message@), ..a2 }, now);
                &&& final(self)@ == a3
                &&& effects_view(final(effects)@) == effects_view(old(effects)@) + (seq![
                    EffectV::LogError {
                        message: "prefetch error story_id="@ + story_id@ + ": "@ + message@,
                    },
                ] + e3)
            }),
            keys_unique(final(self)@),
    {
        proof {
            lemma_set_remove(self@.in_flight, story_id@);
            lemma_ticket_remove_unique(self@.generations, story_id@);
        }
        remove_text(&mut self.comment_prefetch_in_flight_ids, &story_id);
        remove_ticket(&mut self.comment_prefetch_generations, &story_id);
        let awaited = match &self.awaiting_prefetch_story_id {
            Some(id) => *id == story_id,
            None => false,
        };
        if awaited {
            self.awaiting_prefetch_story_id = None;
            self.comment_loading = false;
        }
        let mut log = String::from_str("prefetch error story_id=");
        log.append(story_id.as_str());
        log.append(": ");
        log.append(message.as_str());
        let e = Effect::LogError { message: log };
        let ghost e0 = effects_view(effects@);
        effects.push(e);
        assert(effects_view(effects@) =~= e0.push(e@));
        self.last_error = Some(message);
        let ghost a2 = self@;
        self.maybe_prefetch_comments(now, effects);
        proof {
            let e3 = prefetch_comments_spec(a2, now).1;
            assert(e0.push(e@) + e3 =~= e0 + (seq![e@] + e3));
        }
    }

    /// Takes in the answer to a fetch. An answer whose generation is not the one the
    /// state waits for changes nothing.
    #[verifier::rlimit(60)]
    pub fn handle_app_event(&mut self, event: AppEvent, now: u64, effects: &mut Vec<Effect>)
        requires
            keys_unique(old(self)@),
        ensures
            final(self)@ == app_event_spec(old(self)@, event@, now).0,
            effects_view(final(effects)@) == effects_view(old(effects)@) + app_event_spec(
                old(self)@,
                event@,
                now,
            ).1,
            keys_unique(final(self)@),
    {
        assert(effects_view(effects@) + Seq::<EffectV>::empty() =~= effects_view(effects@));
        match event {
            AppEvent::StoriesLoaded { generation, mode, stories, next_page, end_reached } => {
                if generation != self.stories_generation {
                    return;
                }
                self.on_stories_loaded(mode, stories, next_page, end_reached, now, effects);
            },
            AppEvent::CommentsLoaded { generation, story_id, story, comments } => {
                if generation != self.comments_generation {
                    return;
                }
                let other = match &self.current_story {
                    Some(s) => s.short_id != story_id,
                    None => false,
                };
                if other {
                    return;
                }
                self.apply_comments_for_story(story, comments, false);
            },
            AppEvent::CommentsPrefetched { generation, story_id, story, comments } => {
                let expected = ticket_lookup(&self.comment_prefetch_generations, &story_id);
                if expected != Some(generation) {
                    return;
                }
                self.on_comments_prefetched(story_id, story, comments, now, effects);
            },
            AppEvent::Error { generation, message } => {
                if generation != self.stories_generation && generation != self.comments_generation {
                    return;
                }
                self.story_loading = false;
                self.prefetch_in_flight = false;
                self.comment_loading = false;
                let mut log = String::from_str("load error: ");
                log.append(message.as_str());
                let e = Effect::LogError { message: log };
                let ghost e0 = effects_view(effects@);
                effects.push(e);
                assert(effects_view(effects@) =~= e0 + seq![e@]);
                self.last_error = Some(message);
            },
            AppEvent::PrefetchError { generation, story_id, message } => {
                let expected = ticket_lookup(&self.comment_prefetch_generations, &story_id);
                if expected != Some(generation) {
                    return;
                }
                self.on_prefetch_error(story_id, message, now, effects);
            },
        }
    }
}


/// The link a story opens: its URL, or its comments page where it has none.
pub open spec fn story_link(st: StoryV) -> Seq<char> {
    match st.url {
        Some(u) => u,
        None => st.comments_url,
    }
}

/// The selection after a move on the story list, kept on screen.
pub open spec fn with_story_sel(a: AppV, s: ListSelection) -> AppV {
    AppV { story_list_state: s, ..a }
}

/// Follows a change of the story selection with the prefetches it may call for:
/// the next page (where `pages`) and then comment threads.
pub open spec fn after_story_move(a: AppV, pages: bool, now: u64) -> (AppV, Seq<EffectV>) {
    let (a1, e1) = if pages {
        prefetch_stories_spec(a)
    } else {
        (a, Seq::empty())
    };
    let (a2, e2) = prefetch_comments_spec(a1, now);
    (a2, e1 + e2)
}

/// An action on the story list.
pub open spec fn story_action_spec(a: AppV, action: Action, now: u64) -> (AppV, Seq<EffectV>) {
    let len = a.stories.len() as usize;
    let page = a.story_page_size;
    match action {
        Action::BackOrQuit => (AppV { should_quit: true, ..a }, Seq::empty()),
        Action::Refresh => refresh_stories_spec(a),
        Action::Enter | Action::OpenComments | Action::Expand => open_comments_spec(a),
        Action::OpenPrimaryBrowser => match selected_story_index(a) {
            None => (AppV { last_error: Some("no selected story"@), ..a }, Seq::empty()),
            Some(i) => (a, seq![EffectV::OpenStory { url: story_link(a.stories[i]) }]),
        },
        Action::OpenSecondaryBrowser => match selected_story_index(a) {
            None => (AppV { last_error: Some("no selected story"@), ..a }, Seq::empty()),
            Some(i) => (a, seq![EffectV::OpenStoryComments { url: a.stories[i].comments_url }]),
        },
        Action::MoveDown => after_story_move(
            with_story_sel(a, ensure_visible_spec(move_down_spec(a.story_list_state, len), len, page)),
            true,
            now,
        ),
        Action::MoveUp => after_story_move(
            with_story_sel(a, ensure_visible_spec(move_up_spec(a.story_list_state), len, page)),
            false,
            now,
        ),
        Action::PageDown => after_story_move(
            with_story_sel(a, page_down_spec(a.story_list_state, len, page)),
            true,
            now,
        ),
        Action::PageUp => after_story_move(
            with_story_sel(a, page_up_spec(a.story_list_state, page)),
            false,
            now,
        ),
        Action::GoTop => after_story_move(
            with_story_sel(a, ListSelection { selected: Some(0), offset: 0 }),
            false,
            now,
        ),
        Action::GoBottom => if len == 0 {
            (a, Seq::empty())
        } else {
            after_story_move(
                with_story_sel(
                    a,
                    ensure_visible_spec(
                        ListSelection { selected: Some((len - 1) as usize), ..a.story_list_state },
                        len,
                        page,
                    ),
                ),
                true,
                now,
            )
        },
        _ => (a, Seq::empty()),
    }
}

/// The comment selection `s` kept on screen.
pub open spec fn comment_visible(a: AppV, s: ListSelection) -> AppV {
    let (s2, off) = ensure_comment_visible_spec(
        s,
        a.comment_line_offset,
        a.comment_list.len() as usize,
        a.comment_item_heights,
        a.comment_viewport_height,
    );
    AppV { comment_list_state: s2, comment_line_offset: off, ..a }
}

/// An action on the comment thread.
pub open spec fn comment_action_spec(a: AppV, action: Action, now: u64) -> (AppV, Seq<EffectV>) {
    let len = a.comment_list.len() as usize;
    match action {
        Action::BackOrQuit => prefetch_comments_spec(AppV { view: screen::View::Stories, ..a }, now),
        Action::Refresh => refresh_comments_spec(a),
        Action::OpenPrimaryBrowser => match a.current_story {
            None => (AppV { last_error: Some("no current story"@), ..a }, Seq::empty()),
            Some(st) => (a, seq![EffectV::OpenStoryComments { url: st.comments_url }]),
        },
        Action::OpenSecondaryBrowser => match a.current_story {
            None => (AppV { last_error: Some("no current story"@), ..a }, Seq::empty()),
            Some(st) => (a, seq![EffectV::OpenStory { url: story_link(st) }]),
        },
        Action::MoveDown => (comment_visible(a, move_down_spec(a.comment_list_state, len)), Seq::empty()),
        Action::MoveUp => (comment_visible(a, move_up_spec(a.comment_list_state)), Seq::empty()),
        Action::PageDown => (
            comment_visible(a, page_down_spec(a.comment_list_state, len, a.comment_page_size)),
            Seq::empty(),
        ),
        Action::PageUp => (
            comment_visible(a, page_up_spec(a.comment_list_state, a.comment_page_size)),
            Seq::empty(),
        ),
        Action::GoTop => (
            comment_visible(a, ListSelection { selected: Some(0), ..a.comment_list_state }),
            Seq::empty(),
        ),
        Action::GoBottom => if len == 0 {
            (a, Seq::empty())
        } else {
            (
                comment_visible(
                    a,
                    ListSelection { selected: Some((len - 1) as usize), ..a.comment_list_state },
                ),
                Seq::empty(),
            )
        },
        Action::Enter | Action::ToggleCollapse => (toggle_selected_spec(a), Seq::empty()),
        Action::Collapse => (set_selected_collapse_spec(a, true), Seq::empty()),
        Action::Expand => (set_selected_collapse_spec(a, false), Seq::empty()),
        _ => (a, Seq::empty()),
    }
}

/// `handle_action`: the help overlay takes every action while shown (only `?` and
/// back close it); else the action goes to the screen shown.
pub open spec fn action_spec(a: AppV, action: Action, now: u64) -> (AppV, Seq<EffectV>) {
    if action == Action::ToggleHelp {
        (AppV { help_visible: !a.help_visible, ..a }, Seq::empty())
    } else if a.help_visible {
        if action == Action::BackOrQuit {
            (AppV { help_visible: false, ..a }, Seq::empty())
        } else {
            (a, Seq::empty())
        }
    } else {
        match a.view {
            screen::View::Stories => story_action_spec(a, action, now),
            screen::View::Comments => comment_action_spec(a, action, now),
        }
    }
}

fn story_link_of(st: &Story) -> (r: String)
    ensures
        r@ == story_link(st@),
{
    match &st.url {
        Some(u) => u.clone(),
        None => st.comments_url.clone(),
    }
}

impl App {
    fn push_effect(effects: &mut Vec<Effect>, e: Effect)
        ensures
            effects_view(final(effects)@) == effects_view(old(effects)@) + seq![e@],
    {
        let ghost e0 = effects_view(effects@);
        let ghost ev = e@;
        effects.push(e);
        assert(effects_view(effects@) =~= e0 + seq![ev]);
    }

    fn after_story_move(&mut self, pages: bool, now: u64, effects: &mut Vec<Effect>)
        requires
            keys_unique(old(self)@),
        ensures
            final(self)@ == after_story_move(old(self)@, pages, now).0,
            effects_view(final(effects)@) == effects_view(old(effects)@) + after_story_move(
                old(self)@,
                pages,
                now,
            ).1,
            keys_unique(final(self)@),
    {
        let ghost e0 = effects_view(effects@);
        if pages {
            self.maybe_prefetch_stories(effects);
        } else {
            assert(effects_view(effects@) =~= e0 + Seq::<EffectV>::empty());
        }
        let ghost e1 = effects_view(effects@);
        let ghost a1 = self@;
        self.maybe_prefetch_comments(now, effects);
        proof {
            let (p1, q1) = if pages {
                prefetch_stories_spec(old(self)@)
            } else {
                (old(self)@, Seq::<EffectV>::empty())
            };
            assert(e1 == e0 + q1);
            assert(effects_view(effects@) =~= e0 + (q1 + prefetch_comments_spec(a1, now).1));
        }
    }

    #[verifier::spinoff_prover]
    #[verifier::rlimit(100)]
    fn story_action(&mut self, action: Action, now: u64, effects: &mut Vec<Effect>)
        requires
            keys_unique(old(self)@),
        ensures
            final(self)@ == story_action_spec(old(self)@, action, now).0,
            effects_view(final(effects)@) == effects_view(old(effects)@) + story_action_spec(
                old(self)@,
                action,
                now,
            ).1,
            keys_unique(final(self)@),
    {
        assert(effects_view(effects@) + Seq::<EffectV>::empty() =~= effects_view(effects@));
        let len = self.stories.len();
        match action {
            Action::BackOrQuit => {
                self.should_quit = true;
            },
            Action::Refresh => {
                self.refresh_stories(effects);
            },
            Action::Enter | Action::OpenComments | Action::Expand => {
                self.open_comments_for_selected_story(effects);
            },
            Action::OpenPrimaryBrowser => {
                match self.selected_story() {
                    Some(st) => {
                        let url = story_link_of(st);
                        Self::push_effect(effects, Effect::OpenStory { url });
                    },
                    None => {
                        self.last_error = Some(String::from_str("no selected story"));
                    },
                }
            },
            Action::OpenSecondaryBrowser => {
                match self.selected_story() {
                    Some(st) => {
                        let url = st.comments_url.clone();
                        Self::push_effect(effects, Effect::OpenStoryComments { url });
                    },
                    None => {
                        self.last_error = Some(String::from_str("no selected story"));
                    },
                }
            },
            Action::MoveDown => {
                move_selection_down(&mut self.story_list_state, len);
                ensure_visible(&mut self.story_list_state, len, self.story_page_size);
                proof {
                    lemma_keys_unique_same(old(self)@, self@);
                }
                self.after_story_move(true, now, effects);
            },
            Action::MoveUp => {
                move_selection_up(&mut self.story_list_state);
                ensure_visible(&mut self.story_list_state, len, self.story_page_size);
                proof {
                    lemma_keys_unique_same(old(self)@, self@);
                }
                self.after_story_move(false, now, effects);
            },
            Action::PageDown => {
                page_down(&mut self.story_list_state, len, self.story_page_size);
                proof {
                    lemma_keys_unique_same(old(self)@, self@);
                }
                self.after_story_move(true, now, effects);
            },
            Action::PageUp => {
                page_up(&mut self.story_list_state, self.story_page_size);
                proof {
                    lemma_keys_unique_same(old(self)@, self@);
                }
                self.after_story_move(false, now, effects);
            },
            Action::GoTop => {
                self.story_list_state = ListSelection { selected: Some(0), offset: 0 };
                proof {
                    lemma_keys_unique_same(old(self)@, self@);
                }
                self.after_story_move(false, now, effects);
            },
            Action::GoBottom => {
                if len > 0 {
                    self.story_list_state.selected = Some(len - 1);
                    ensure_visible(&mut self.story_list_state, len, self.story_page_size);
                    proof {
                        lemma_keys_unique_same(old(self)@, self@);
                    }
                    self.after_story_move(true, now, effects);
                }
            },
            _ => {},
        }
    }

    fn comment_visible(&mut self)
        ensures
            final(self)@ == comment_visible(old(self)@, old(self)@.comment_list_state),
    {
        let len = self.comment_list.len();
        ensure_comment_visible(
            &mut self.comment_list_state,
            &mut self.comment_line_offset,
            len,
            &self.comment_item_heights,
            self.comment_viewport_height,
        );
    }

    #[verifier::spinoff_prover]
    #[verifier::rlimit(100)]
    fn comment_action(&mut self, action: Action, now: u64, effects: &mut Vec<Effect>)
        requires
            keys_unique(old(self)@),
        ensures
            final(self)@ == comment_action_spec(old(self)@, action, now).0,
            effects_view(final(effects)@) == effects_view(old(effects)@) + comment_action_spec(
                old(self)@,
                action,
                now,
            ).1,
            keys_unique(final(self)@),
    {
        assert(effects_view(effects@) + Seq::<EffectV>::empty() =~= effects_view(effects@));
        let len = self.comment_list.len();
        match action {
            Action::BackOrQuit => {
                self.view = screen::View::Stories;
                self.maybe_prefetch_comments(now, effects);
            },
            Action::Refresh => {
                self.refresh_comments(effects);
            },
            Action::OpenPrimaryBrowser => {
                match &self.current_story {
                    Some(st) => {
                        let url = st.comments_url.clone();
                        Self::push_effect(effects, Effect::OpenStoryComments { url });
                    },
                    None => {
                        self.last_error = Some(String::from_str("no current story"));
                    },
                }
            },
            Action::OpenSecondaryBrowser => {
                match &self.current_story {
                    Some(st) => {
                        let url = story_link_of(st);
                        Self::push_effect(effects, Effect::OpenStory { url });
                    },
                    None => {
                        self.last_error = Some(String::from_str("no current story"));
                    },
                }
            },
            Action::MoveDown => {
                move_selection_down(&mut self.comment_list_state, len);
                self.comment_visible();
            },
            Action::MoveUp => {
                move_selection_up(&mut self.comment_list_state);
                self.comment_visible();
            },
            Action::PageDown => {
                page_down_comment_list(
                    &mut self.comment_list_state,
                    len,
                    self.comment_page_size,
                    &mut self.comment_line_offset,
                    &self.comment_item_heights,
                    self.comment_viewport_height,
                );
            },
            Action::PageUp => {
                page_up_comment_list(
                    &mut self.comment_list_state,
                    len,
                    self.comment_page_size,
                    &mut self.comment_line_offset,
                    &self.comment_item_heights,
                    self.comment_viewport_height,
                );
            },
            Action::GoTop => {
                self.comment_list_state.selected = Some(0);
                self.comment_visible();
            },
            Action::GoBottom => {
                if len > 0 {
                    self.comment_list_state.selected = Some(len - 1);
                    self.comment_visible();
                }
            },
            Action::Enter | Action::ToggleCollapse => {
                self.toggle_selected_comment_collapse();
            },
            Action::Collapse => {
                self.collapse_selected_comment();
            },
            Action::Expand => {
                self.expand_selected_comment();
            },
            _ => {},
        }
    }

    /// Carries out what a key press asked for.
    pub fn handle_action(&mut self, action: Action, now: u64, effects: &mut Vec<Effect>)
        requires
            keys_unique(old(self)@),
        ensures
            final(self)@ == action_spec(old(self)@, action, now).0,
            effects_view(final(effects)@) == effects_view(old(effects)@) + action_spec(
                old(self)@,
                action,
                now,
            ).1,
            keys_unique(final(self)@),
    {
        assert(effects_view(effects@) + Seq::<EffectV>::empty() =~= effects_view(effects@));
        if action == Action::ToggleHelp {
            self.help_visible = !self.help_visible;
            proof {
                lemma_keys_unique_same(old(self)@, self@);
            }
            return;
        }
        if self.help_visible {
            if action == Action::BackOrQuit {
                self.help_visible = false;
            }
            proof {
                lemma_keys_unique_same(old(self)@, self@);
            }
            return;
        }
        match self.view {
            screen::View::Stories => self.story_action(action, now, effects),
            screen::View::Comments => self.comment_action(action, now, effects),
        }
    }
}


/// Something is being fetched.
pub open spec fn busy_spec(a: AppV) -> bool {
    a.story_loading || a.prefetch_in_flight || a.comment_loading || a.in_flight.len() > 0
}

/// `tick`: the spinner turns while busy, and comment prefetching gets a chance.
pub open spec fn tick_spec(a: AppV, now: u64) -> (AppV, Seq<EffectV>) {
    let a1 = if busy_spec(a) {
        AppV { spinner_idx: if a.spinner_idx == usize::MAX { 0 } else { (a.spinner_idx + 1) as usize }, ..a }
    } else {
        a
    };
    prefetch_comments_spec(a1, now)
}

/// The frames of the busy spinner.
pub open spec fn spinner_frames() -> Seq<char> {
    seq!['\u{280b}', '\u{2819}', '\u{2839}', '\u{2838}', '\u{283c}', '\u{2834}', '\u{2826}', '\u{2827}']
}

/// The state of a freshly started application.
pub open spec fn initial_spec(
    feed: Feed,
    count: usize,
    has_state_store: bool,
    comment_default_visible_levels: usize,
    now: u64,
) -> AppV {
    AppV {
        view: screen::View::Stories,
        help_visible: false,
        stories: Seq::empty(),
        story_list_state: ListSelection { selected: Some(0), offset: 0 },
        story_loading: false,
        story_page_size: 10,
        story_next_page: 1,
        story_end_reached: false,
        prefetch_in_flight: false,
        current_story: None,
        comment_tree: Seq::empty(),
        comment_list: Seq::empty(),
        comment_list_state: ListSelection { selected: Some(0), offset: 0 },
        comment_loading: false,
        comment_page_size: 10,
        comment_item_heights: Seq::empty(),
        comment_viewport_height: 0,
        comment_line_offset: 0,
        last_error: None,
        in_flight: Seq::empty(),
        feed,
        count,
        has_state_store,
        comment_default_visible_levels,
        stories_generation: 0,
        comments_generation: 0,
        comments_prefetch_generation: 0,
        generations: Seq::empty(),
        cache: Seq::empty(),
        awaiting: None,
        should_quit: false,
        spinner_idx: 0,
        last_user_activity: now,
        pending_selection: None,
    }
}

/// `restore_story_list_state`: a saved story list taken in where it is of the same
/// feed, not empty and has a next page; else an error says why not.
pub open spec fn restore_spec(
    a: AppV,
    feed: Seq<char>,
    next_page: usize,
    end_reached: bool,
    stories: Seq<StoryV>,
) -> AppV {
    if feed != feed_path(a.feed) {
        AppV {
            last_error: Some(
                "refusing to restore story list state: feed mismatch (state="@ + feed + ", cli="@
                    + feed_path(a.feed) + ")"@,
            ),
            ..a
        }
    } else if stories.len() == 0 {
        AppV { last_error: Some("refusing to restore empty story list state"@), ..a }
    } else if next_page == 0 {
        AppV { last_error: Some("refusing to restore next_page=0"@), ..a }
    } else {
        AppV {
            stories,
            story_loading: false,
            prefetch_in_flight: false,
            story_next_page: next_page,
            story_end_reached: end_reached,
            story_list_state: ListSelection { selected: Some(0), offset: 0 },
            ..a
        }
    }
}

impl App {
    /// A freshly started application: the story list shown, nothing loaded yet.
    pub fn new(
        feed: Feed,
        count: usize,
        has_state_store: bool,
        comment_default_visible_levels: usize,
        now: u64,
    ) -> (r: App)
        ensures
            r@ == initial_spec(feed, count, has_state_store, comment_default_visible_levels, now),
            keys_unique(r@),
    {
        let r = App {
            view: screen::View::Stories,
            help_visible: false,
            stories: Vec::new(),
            story_list_state: ListSelection { selected: Some(0), offset: 0 },
            story_loading: false,
            story_page_size: 10,
            story_next_page: 1,
            story_end_reached: false,
            prefetch_in_flight: false,
            current_story: None,
            comment_tree: Vec::new(),
            comment_list: Vec::new(),
            comment_list_state: ListSelection { selected: Some(0), offset: 0 },
            comment_loading: false,
            comment_page_size: 10,
            comment_item_heights: Vec::new(),
            comment_viewport_height: 0,
            comment_line_offset: 0,
            last_error: None,
            comment_prefetch_in_flight_ids: Vec::new(),
            feed,
            count,
            has_state_store,
            comment_default_visible_levels,
            stories_generation: 0,
            comments_generation: 0,
            comments_prefetch_generation: 0,
            comment_prefetch_generations: Vec::new(),
            prefetched_comments_cache: Vec::new(),
            awaiting_prefetch_story_id: None,
            should_quit: false,
            spinner_idx: 0,
            last_user_activity: now,
            pending_story_selection_id: None,
        };
        assert(stories_view(r.stories@) =~= Seq::empty());
        assert(nodes_view(r.comment_tree@) =~= Seq::empty());
        assert(comments_view(r.comment_list@) =~= Seq::empty());
        assert(strings_view(r.comment_prefetch_in_flight_ids@) =~= Seq::empty());
        assert(tickets_view(r.comment_prefetch_generations@) =~= Seq::empty());
        assert(cache_view(r.prefetched_comments_cache@) =~= Seq::empty());
        r
    }

    /// The current frame of the busy spinner.
    pub fn spinner_frame(&self) -> (r: char)
        ensures
            r == spinner_frames()[(self.spinner_idx % 8) as int],
    {
        let i = self.spinner_idx % 8;
        if i == 0 {
            '\u{280b}'
        } else if i == 1 {
            '\u{2819}'
        } else if i == 2 {
            '\u{2839}'
        } else if i == 3 {
            '\u{2838}'
        } else if i == 4 {
            '\u{283c}'
        } else if i == 5 {
            '\u{2834}'
        } else if i == 6 {
            '\u{2826}'
        } else {
            '\u{2827}'
        }
    }

    /// Whether something is being fetched.
    pub fn is_busy(&self) -> (r: bool)
        ensures
            r == busy_spec(self@),
    {
        self.story_loading || self.prefetch_in_flight || self.comment_loading
            || self.comment_prefetch_in_flight_ids.len() > 0
    }

    /// How long to wait for input before the next tick, in milliseconds: shorter
    /// while something is being fetched, so that the spinner turns.
    pub fn tick_interval_ms(&self) -> (r: u64)
        ensures
            r == if busy_spec(self@) { 120u64 } else { 200u64 },
    {
        if self.is_busy() { 120 } else { 200 }
    }

    /// Fits the story list to a screen area of `rows` rows: every story takes two
    /// rows, and a page is at least one story.
    pub fn set_story_viewport(&mut self, rows: usize)
        ensures
            final(self)@ == (AppV { story_page_size: if rows / 2 < 1 { 1 } else { rows / 2 }, ..old(self)@ }),
            keys_unique(old(self)@) ==> keys_unique(final(self)@),
    {
        self.story_page_size = if rows / 2 < 1 { 1 } else { rows / 2 };
    }

    /// Whether the story list is saved on quitting: there is a cache and the list
    /// is not empty.
    pub fn save_on_quit(&self) -> (r: bool)
        ensures
            r == (self@.has_state_store && self@.stories.len() > 0),
    {
        self.has_state_store && self.stories.len() > 0
    }

    /// Whether the user asked to quit.
    pub fn should_quit(&self) -> (r: bool)
        ensures
            r == self@.should_quit,
    {
        self.should_quit
    }

    /// Records a key press at `now`; prefetching waits for the user to be idle.
    pub fn note_user_activity(&mut self, now: u64)
        ensures
            final(self)@ == (AppV { last_user_activity: now, ..old(self)@ }),
            keys_unique(old(self)@) ==> keys_unique(final(self)@),
    {
        self.last_user_activity = now;
    }

    /// Shows an error that the driver met while doing an effect.
    pub fn report_error(&mut self, message: String)
        ensures
            final(self)@ == (AppV { last_error: Some(message@), ..old(self)@ }),
            keys_unique(old(self)@) ==> keys_unique(final(self)@),
    {
        self.last_error = Some(message);
    }

    /// A timer tick at `now`.
    pub fn tick(&mut self, now: u64, effects: &mut Vec<Effect>)
        requires
            keys_unique(old(self)@),
        ensures
            final(self)@ == tick_spec(old(self)@, now).0,
            effects_view(final(effects)@) == effects_view(old(effects)@) + tick_spec(old(self)@, now).1,
            keys_unique(final(self)@),
    {
        if self.is_busy() {
            self.spinner_idx = if self.spinner_idx == usize::MAX { 0 } else { self.spinner_idx + 1 };
        }
        proof {
            lemma_keys_unique_same(old(self)@, self@);
        }
        self.maybe_prefetch_comments(now, effects);
    }

    /// Keeps the selected comment's lines on screen, over the measured comments.
    pub fn ensure_comment_line_offset(&mut self)
        ensures
            ({
                let (s, off) = ensure_comment_visible_spec(
                    old(self)@.comment_list_state,
                    old(self)@.comment_line_offset,
                    old(self)@.comment_item_heights.len() as usize,
                    old(self)@.comment_item_heights,
                    old(self)@.comment_viewport_height,
                );
                final(self)@ == AppV { comment_list_state: s, comment_line_offset: off, ..old(self)@ }
            }),
    {
        crate::nav::ensure_comment_line_offset(
            &mut self.comment_list_state,
            &mut self.comment_line_offset,
            &self.comment_item_heights,
            self.comment_viewport_height,
        );
    }

    /// Takes in a saved story list.
    pub fn restore_story_list_state(
        &mut self,
        feed: String,
        next_page: usize,
        end_reached: bool,
        stories: Vec<Story>,
    )
        requires
            keys_unique(old(self)@),
        ensures
            final(self)@ == restore_spec(old(self)@, feed@, next_page, end_reached, stories_view(stories@)),
            keys_unique(final(self)@),
    {
        let path = String::from_str(self.feed.path());
        if feed != path {
            let mut msg = String::from_str("refusing to restore story list state: feed mismatch (state=");
            msg.append(feed.as_str());
            msg.append(", cli=");
            msg.append(path.as_str());
            msg.append(")");
            self.last_error = Some(msg);
            proof {
                lemma_keys_unique_same(old(self)@, self@);
            }
            return;
        }
        if stories.len() == 0 {
            self.last_error = Some(String::from_str("refusing to restore empty story list state"));
            proof {
                lemma_keys_unique_same(old(self)@, self@);
            }
            return;
        }
        if next_page == 0 {
            self.last_error = Some(String::from_str("refusing to restore next_page=0"));
            proof {
                lemma_keys_unique_same(old(self)@, self@);
            }
            return;
        }
        self.stories = stories;
        self.story_loading = false;
        self.prefetch_in_flight = false;
        self.story_next_page = next_page;
        self.story_end_reached = end_reached;
        self.story_list_state = ListSelection { selected: Some(0), offset: 0 };
        proof {
            lemma_keys_unique_same(old(self)@, self@);
        }
    }
}


} // verus!
