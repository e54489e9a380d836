use vstd::prelude::*;
use crate::model::{
    AppEventV, AppV, EffectV, MAX_COMMENT_PREFETCH_IN_FLIGHT, StoriesLoadMode, action_spec,
    after_story_move, app_event_spec, first_story_with_id, next_generation,
    prefetch_comments_spec, prefetch_stories_spec, refresh_stories_spec, selected_story_index,
    set_insert, set_remove, start_prefetch_spec, start_prefetches_spec, stories_loaded_spec,
    ticket_get, tick_spec, prefetch_candidates_spec, IDLE_PREFETCH_DELAY,
};
use crate::rate_limiter::elapsed;
use crate::tree::{set_collapse_spec, visible_comments};
use crate::screen::Action;
use crate::story::StoryV;

verus! {

/// A page of stories answering an earlier stories generation changes nothing.
pub proof fn stale_stories_are_ignored(a: AppV, ev: AppEventV, now: u64)
    requires
        ev matches AppEventV::StoriesLoaded { generation, .. } && generation != a.stories_generation,
    ensures
        app_event_spec(a, ev, now) == (a, Seq::<EffectV>::empty()),
{
}

/// A comment thread answering an earlier comments generation changes nothing.
pub proof fn stale_comments_are_ignored(a: AppV, ev: AppEventV, now: u64)
    requires
        ev matches AppEventV::CommentsLoaded { generation, .. } && generation != a.comments_generation,
    ensures
        app_event_spec(a, ev, now) == (a, Seq::<EffectV>::empty()),
{
}

/// A prefetched thread, or a prefetch error, that does not answer the prefetch under
/// way for its story changes nothing.
pub proof fn stale_prefetches_are_ignored(a: AppV, ev: AppEventV, now: u64)
    requires
        (ev matches AppEventV::CommentsPrefetched { generation, story_id, .. } && ticket_get(
            a.generations,
            story_id,
        ) != Some(generation)) || (ev matches AppEventV::PrefetchError { generation, story_id, .. }
            && ticket_get(a.generations, story_id) != Some(generation)),
    ensures
        app_event_spec(a, ev, now) == (a, Seq::<EffectV>::empty()),
{
}

/// A load error of neither current generation changes nothing.
pub proof fn stale_errors_are_ignored(a: AppV, ev: AppEventV, now: u64)
    requires
        ev matches AppEventV::Error { generation, .. } && generation != a.stories_generation
            && generation != a.comments_generation,
    ensures
        app_event_spec(a, ev, now) == (a, Seq::<EffectV>::empty()),
{
}

/// After a refresh, the answer to the load that was under way before it is ignored.
pub proof fn refresh_makes_earlier_loads_stale(a: AppV, ev: AppEventV, now: u64)
    requires
        ev matches AppEventV::StoriesLoaded { generation, .. } && generation == a.stories_generation,
    ensures
        app_event_spec(refresh_stories_spec(a).0, ev, now) == (refresh_stories_spec(a).0, Seq::<
            EffectV,
        >::empty()),
{
    assert(next_generation(a.stories_generation) != a.stories_generation);
}

/// Toggling the help overlay twice gives back the state it started from.
pub proof fn help_toggle_is_an_involution(a: AppV, now: u64)
    ensures
        action_spec(action_spec(a, Action::ToggleHelp, now).0, Action::ToggleHelp, now).0 == a,
        action_spec(a, Action::ToggleHelp, now).1.len() == 0,
{
    assert(action_spec(action_spec(a, Action::ToggleHelp, now).0, Action::ToggleHelp, now).0 =~= a);
}

/// While the help overlay is shown, every action but `?` and back changes nothing.
pub proof fn help_overlay_swallows_actions(a: AppV, action: Action, now: u64)
    requires
        a.help_visible,
        action != Action::ToggleHelp,
        action != Action::BackOrQuit,
    ensures
        action_spec(a, action, now) == (a, Seq::<EffectV>::empty()),
{
}

/// Quitting is asked only from the story list: back on the comment thread returns
/// to the story list.
pub proof fn back_from_comments_does_not_quit(a: AppV, now: u64)
    requires
        !a.help_visible,
        a.view == crate::screen::View::Comments,
    ensures
        action_spec(a, Action::BackOrQuit, now).0.view == crate::screen::View::Stories,
        action_spec(a, Action::BackOrQuit, now).0.should_quit == a.should_quit,
{
    let a1 = AppV { view: crate::screen::View::Stories, ..a };
    lemma_prefetch_keeps(a1, now);
}

proof fn lemma_start_keeps(a: AppV, cands: Seq<StoryV>, k: int)
    requires
        a.in_flight.len() <= MAX_COMMENT_PREFETCH_IN_FLIGHT,
    ensures
        start_prefetches_spec(a, cands, k).0.in_flight.len() <= MAX_COMMENT_PREFETCH_IN_FLIGHT,
        start_prefetches_spec(a, cands, k).0.view == a.view,
        start_prefetches_spec(a, cands, k).0.should_quit == a.should_quit,
    decreases cands.len() - k,
{
    if !(k < 0 || k >= cands.len() || a.in_flight.len() >= MAX_COMMENT_PREFETCH_IN_FLIGHT) {
        let (a1, e1) = start_prefetch_spec(a, cands[k].short_id);
        assert(set_insert(a.in_flight, cands[k].short_id).len() <= a.in_flight.len() + 1);
        lemma_start_keeps(a1, cands, k + 1);
    }
}

proof fn lemma_prefetch_keeps(a: AppV, now: u64)
    ensures
        a.in_flight.len() <= MAX_COMMENT_PREFETCH_IN_FLIGHT ==> prefetch_comments_spec(a, now).0.in_flight.len()
            <= MAX_COMMENT_PREFETCH_IN_FLIGHT,
        prefetch_comments_spec(a, now).0.view == a.view,
        prefetch_comments_spec(a, now).0.should_quit == a.should_quit,
{
    if a.in_flight.len() <= MAX_COMMENT_PREFETCH_IN_FLIGHT {
        lemma_start_keeps(a, crate::model::prefetch_candidates_spec(a), 0);
    } else if !(a.view != crate::screen::View::Stories || a.in_flight.len() >= MAX_COMMENT_PREFETCH_IN_FLIGHT) {
    }
}

/// Comment prefetching never has more than the maximum under way: a timer tick
/// keeps the number within it.
pub proof fn tick_keeps_prefetches_bounded(a: AppV, now: u64)
    requires
        a.in_flight.len() <= MAX_COMMENT_PREFETCH_IN_FLIGHT,
    ensures
        tick_spec(a, now).0.in_flight.len() <= MAX_COMMENT_PREFETCH_IN_FLIGHT,
{
    let a1 = if crate::model::busy_spec(a) {
        AppV { spinner_idx: if a.spinner_idx == usize::MAX { 0 } else { (a.spinner_idx + 1) as usize }, ..a }
    } else {
        a
    };
    lemma_prefetch_keeps(a1, now);
}

proof fn lemma_set_remove_len(s: Seq<Seq<char>>, x: Seq<char>)
    ensures
        set_remove(s, x).len() <= s.len(),
    decreases s.len(),
{
    if s.len() > 0 {
        lemma_set_remove_len(s.drop_last(), x);
    }
}

proof fn lemma_after_move_keeps(a: AppV, pages: bool, now: u64)
    requires
        a.in_flight.len() <= MAX_COMMENT_PREFETCH_IN_FLIGHT,
    ensures
        after_story_move(a, pages, now).0.in_flight.len() <= MAX_COMMENT_PREFETCH_IN_FLIGHT,
{
    if pages {
        lemma_prefetch_keeps(prefetch_stories_spec(a).0, now);
    } else {
        lemma_prefetch_keeps(a, now);
    }
}

/// Every action keeps the comment prefetches under way within the maximum.
#[verifier::rlimit(40)]
pub proof fn actions_keep_prefetches_bounded(a: AppV, action: Action, now: u64)
    requires
        a.in_flight.len() <= MAX_COMMENT_PREFETCH_IN_FLIGHT,
    ensures
        action_spec(a, action, now).0.in_flight.len() <= MAX_COMMENT_PREFETCH_IN_FLIGHT,
{
    if action != Action::ToggleHelp && !a.help_visible {
        if a.view == crate::screen::View::Comments {
            lemma_prefetch_keeps(AppV { view: crate::screen::View::Stories, ..a }, now);
        } else {
            assert forall|s: crate::nav::ListSelection, pages: bool| #[trigger]
                after_story_move(crate::model::with_story_sel(a, s), pages, now).0.in_flight.len()
                    <= MAX_COMMENT_PREFETCH_IN_FLIGHT by {
                lemma_after_move_keeps(crate::model::with_story_sel(a, s), pages, now);
            }
        }
    }
}

/// Every answered fetch keeps the comment prefetches under way within the maximum:
/// a new story list starts with none, and a finished prefetch makes room for one.
#[verifier::rlimit(40)]
pub proof fn events_keep_prefetches_bounded(a: AppV, ev: AppEventV, now: u64)
    requires
        a.in_flight.len() <= MAX_COMMENT_PREFETCH_IN_FLIGHT,
    ensures
        app_event_spec(a, ev, now).0.in_flight.len() <= MAX_COMMENT_PREFETCH_IN_FLIGHT,
{
    match ev {
        AppEventV::StoriesLoaded { generation, mode, stories, next_page, end_reached } => {
            if generation == a.stories_generation {
                assert forall|b: AppV| b.in_flight.len() <= MAX_COMMENT_PREFETCH_IN_FLIGHT implies
                    #[trigger] prefetch_comments_spec(b, now).0.in_flight.len()
                        <= MAX_COMMENT_PREFETCH_IN_FLIGHT by {
                    lemma_prefetch_keeps(b, now);
                }
                assert(stories_loaded_spec(a, mode, stories, next_page, end_reached, now).0.in_flight.len()
                    <= MAX_COMMENT_PREFETCH_IN_FLIGHT);
            }
        },
        AppEventV::CommentsPrefetched { story_id, .. } => {
            lemma_set_remove_len(a.in_flight, story_id);
            assert forall|b: AppV| b.in_flight.len() <= MAX_COMMENT_PREFETCH_IN_FLIGHT implies
                #[trigger] prefetch_comments_spec(b, now).0.in_flight.len()
                    <= MAX_COMMENT_PREFETCH_IN_FLIGHT by {
                lemma_prefetch_keeps(b, now);
            }
        },
        AppEventV::PrefetchError { story_id, .. } => {
            lemma_set_remove_len(a.in_flight, story_id);
            assert forall|b: AppV| b.in_flight.len() <= MAX_COMMENT_PREFETCH_IN_FLIGHT implies
                #[trigger] prefetch_comments_spec(b, now).0.in_flight.len()
                    <= MAX_COMMENT_PREFETCH_IN_FLIGHT by {
                lemma_prefetch_keeps(b, now);
            }
        },
        _ => {},
    }
}

proof fn lemma_first_index(s: Seq<StoryV>, id: Seq<char>, k: int)
    requires
        0 <= k < s.len(),
        s[k].short_id == id,
    ensures
        first_story_with_id(s, id) matches Some(m) && 0 <= m < s.len() && s[m].short_id == id,
    decreases k,
{
    if exists|j: int| 0 <= j < k && #[trigger] s[j].short_id == id {
        let j = choose|j: int| 0 <= j < k && #[trigger] s[j].short_id == id;
        lemma_first_index(s, id, j);
    } else {
        assert(0 <= k < s.len() && s[k].short_id == id && forall|j: int|
            0 <= j < k ==> s[j].short_id != id);
    }
}

proof fn lemma_start_keeps_list(a: AppV, cands: Seq<StoryV>, k: int)
    ensures
        start_prefetches_spec(a, cands, k).0.stories == a.stories,
        start_prefetches_spec(a, cands, k).0.story_list_state == a.story_list_state,
    decreases cands.len() - k,
{
    if !(k < 0 || k >= cands.len() || a.in_flight.len() >= MAX_COMMENT_PREFETCH_IN_FLIGHT) {
        lemma_start_keeps_list(start_prefetch_spec(a, cands[k].short_id).0, cands, k + 1);
    }
}

/// A refresh keeps the story that was selected selected, when the new list still
/// has a story with its id.
pub proof fn refresh_keeps_the_selected_story(
    a: AppV,
    stories: Seq<StoryV>,
    next_page: usize,
    end_reached: bool,
    now: u64,
    k: int,
)
    requires
        selected_story_index(a) is Some,
        0 <= k < stories.len(),
        stories.len() <= usize::MAX,
        stories[k].short_id == a.stories[selected_story_index(a)->0].short_id,
    ensures
        ({
            let r = refresh_stories_spec(a).0;
            let b = app_event_spec(
                r,
                AppEventV::StoriesLoaded {
                    generation: r.stories_generation,
                    mode: StoriesLoadMode::Replace,
                    stories,
                    next_page,
                    end_reached,
                },
                now,
            ).0;
            &&& selected_story_index(b) is Some
            &&& b.stories[selected_story_index(b)->0].short_id
                == a.stories[selected_story_index(a)->0].short_id
        }),
{
    let id = a.stories[selected_story_index(a)->0].short_id;
    lemma_first_index(stories, id, k);
    let r = refresh_stories_spec(a).0;
    assert(r.pending_selection == Some(id));
    let m = first_story_with_id(stories, id)->0;
    let b = stories_loaded_spec(r, StoriesLoadMode::Replace, stories, next_page, end_reached, now).0;
    let a2_sel = crate::nav::ListSelection { selected: Some(m as usize), offset: 0 };
    let a3_sel = crate::nav::ensure_visible_spec(a2_sel, stories.len() as usize, r.story_page_size);
    assert(a3_sel.selected == Some(m as usize));
    let a1 = AppV {
        story_loading: false,
        prefetch_in_flight: false,
        last_error: None,
        story_next_page: if next_page > 1 { next_page } else { 1 },
        story_end_reached: end_reached,
        ..r
    };
    let a3 = AppV {
        stories,
        cache: Seq::empty(),
        in_flight: Seq::empty(),
        generations: Seq::empty(),
        pending_selection: None,
        story_list_state: a3_sel,
        ..a1
    };
    lemma_start_keeps_list(a3, crate::model::prefetch_candidates_spec(a3), 0);
    assert(b == prefetch_comments_spec(a3, now).0);
    assert(b.stories == stories);
    assert(b.story_list_state == a3_sel);
}

proof fn lemma_start_adds(a: AppV, cands: Seq<StoryV>, k: int)
    requires
        0 <= k,
    ensures
        ({
            let s = start_prefetches_spec(a, cands, k).0.in_flight;
            &&& a.in_flight.len() <= s.len()
            &&& s.take(a.in_flight.len() as int) == a.in_flight
            &&& forall|j: int|
                #![trigger s[j]]
                a.in_flight.len() <= j < s.len() ==> exists|m: int|
                    k <= m < cands.len() && #[trigger] cands[m].short_id == s[j]
            &&& s.len() < MAX_COMMENT_PREFETCH_IN_FLIGHT ==> forall|m: int|
                k <= m < cands.len() ==> s.contains(#[trigger] cands[m].short_id)
        }),
    decreases cands.len() - k,
{
    let s = start_prefetches_spec(a, cands, k).0.in_flight;
    if k >= cands.len() || a.in_flight.len() >= MAX_COMMENT_PREFETCH_IN_FLIGHT {
        assert(s.take(a.in_flight.len() as int) =~= a.in_flight);
    } else {
        let id = cands[k].short_id;
        let a1 = start_prefetch_spec(a, id).0;
        lemma_start_adds(a1, cands, k + 1);
        let f = a1.in_flight;
        assert(f.take(a.in_flight.len() as int) =~= a.in_flight);
        assert(s.take(a.in_flight.len() as int) =~= a.in_flight) by {
            assert forall|j: int| 0 <= j < a.in_flight.len() implies s[j] == a.in_flight[j] by {
                assert(s.take(f.len() as int)[j] == f[j]);
            }
        }
        assert(f.contains(id)) by {
            if !a.in_flight.contains(id) {
                assert(f[f.len() - 1] == id);
            }
        }
        assert forall|j: int| #![trigger s[j]] a.in_flight.len() <= j < s.len() implies exists|m: int|
            k <= m < cands.len() && #[trigger] cands[m].short_id == s[j] by {
            if j < f.len() {
                assert(s.take(f.len() as int)[j] == f[j]);
                assert(f[j] == id);
                assert(cands[k].short_id == s[j]);
            } else {
                let m = choose|m: int| k + 1 <= m < cands.len() && #[trigger] cands[m].short_id == s[j];
                assert(cands[m].short_id == s[j]);
            }
        }
        if s.len() < MAX_COMMENT_PREFETCH_IN_FLIGHT {
            assert forall|m: int| k <= m < cands.len() implies s.contains(#[trigger] cands[m].short_id) by {
                if m == k {
                    let i = choose|i: int| 0 <= i < f.len() && f[i] == id;
                    assert(s.take(f.len() as int)[i] == f[i]);
                    assert(s[i] == id);
                }
            }
        }
    }
}

/// Comment prefetching only ever adds stories' ids to those under way, never more
/// than the maximum: the ids under way before stay, first and in order; nothing
/// changes unless the story list is shown, fewer than the maximum are under way,
/// the list is not still loading empty and the user has been idle long enough; each
/// added id is that of a candidate story (`prefetch_story_candidates`), and every
/// candidate is taken while there is room.
pub proof fn comment_prefetch_only_adds(a: AppV, now: u64)
    requires
        a.in_flight.len() <= MAX_COMMENT_PREFETCH_IN_FLIGHT,
    ensures
        ({
            let r = prefetch_comments_spec(a, now).0;
            let cands = prefetch_candidates_spec(a);
            &&& r.in_flight.len() <= MAX_COMMENT_PREFETCH_IN_FLIGHT
            &&& a.in_flight.len() <= r.in_flight.len()
            &&& r.in_flight.take(a.in_flight.len() as int) == a.in_flight
            &&& forall|x: Seq<char>| a.in_flight.contains(x) ==> r.in_flight.contains(x)
            &&& (a.view != crate::screen::View::Stories || a.in_flight.len()
                >= MAX_COMMENT_PREFETCH_IN_FLIGHT || (a.story_loading && a.stories.len() == 0)
                || elapsed(now, a.last_user_activity) < IDLE_PREFETCH_DELAY) ==> r == a
            &&& forall|j: int|
                #![trigger r.in_flight[j]]
                a.in_flight.len() <= j < r.in_flight.len() ==> exists|m: int|
                    0 <= m < cands.len() && #[trigger] cands[m].short_id == r.in_flight[j]
            &&& (!(a.view != crate::screen::View::Stories || a.in_flight.len()
                >= MAX_COMMENT_PREFETCH_IN_FLIGHT || (a.story_loading && a.stories.len() == 0)
                || elapsed(now, a.last_user_activity) < IDLE_PREFETCH_DELAY)
                && r.in_flight.len() < MAX_COMMENT_PREFETCH_IN_FLIGHT) ==> forall|m: int|
                0 <= m < cands.len() ==> r.in_flight.contains(#[trigger] cands[m].short_id)
        }),
{
    let r = prefetch_comments_spec(a, now).0;
    lemma_prefetch_keeps(a, now);
    lemma_start_adds(a, prefetch_candidates_spec(a), 0);
    if r == a {
        assert(r.in_flight.take(a.in_flight.len() as int) =~= a.in_flight);
    }
    assert forall|x: Seq<char>| a.in_flight.contains(x) implies r.in_flight.contains(x) by {
        let i = choose|i: int| 0 <= i < a.in_flight.len() && a.in_flight[i] == x;
        assert(r.in_flight.take(a.in_flight.len() as int)[i] == r.in_flight[i]);
    }
}

/// The comments shown are the comment tree flattened in depth-first order, leaving
/// out the replies below a collapsed comment.
pub open spec fn list_is_flattening(a: AppV) -> bool {
    a.comment_list == visible_comments(a.comment_tree)
}

proof fn lemma_start_keeps_comments(a: AppV, cands: Seq<StoryV>, k: int)
    ensures
        start_prefetches_spec(a, cands, k).0.comment_list == a.comment_list,
        start_prefetches_spec(a, cands, k).0.comment_tree == a.comment_tree,
    decreases cands.len() - k,
{
    if !(k < 0 || k >= cands.len() || a.in_flight.len() >= MAX_COMMENT_PREFETCH_IN_FLIGHT) {
        lemma_start_keeps_comments(start_prefetch_spec(a, cands[k].short_id).0, cands, k + 1);
    }
}

proof fn lemma_prefetch_keeps_comments_at(b: AppV, now: u64)
    ensures
        prefetch_comments_spec(b, now).0.comment_list == b.comment_list,
        prefetch_comments_spec(b, now).0.comment_tree == b.comment_tree,
{
    lemma_start_keeps_comments(b, prefetch_candidates_spec(b), 0);
}

proof fn lemma_prefetch_keeps_comments()
    ensures
        forall|b: AppV, t: u64|
            #![trigger prefetch_comments_spec(b, t)]
            prefetch_comments_spec(b, t).0.comment_list == b.comment_list
                && prefetch_comments_spec(b, t).0.comment_tree == b.comment_tree,
{
    assert forall|b: AppV, t: u64|
        #![trigger prefetch_comments_spec(b, t)]
        prefetch_comments_spec(b, t).0.comment_list == b.comment_list
            && prefetch_comments_spec(b, t).0.comment_tree == b.comment_tree by {
        lemma_prefetch_keeps_comments_at(b, t);
    }
}

proof fn lemma_collapse_keeps_flattening(a: AppV)
    requires
        list_is_flattening(a),
    ensures
        forall|id: Seq<char>, c: bool| #[trigger] list_is_flattening(
            crate::model::collapse_by_id_spec(a, id, c),
        ),
{
    assert forall|id: Seq<char>, c: bool| #[trigger] list_is_flattening(
        crate::model::collapse_by_id_spec(a, id, c),
    ) by {
        crate::tree_laws::unknown_comment_leaves_tree_unchanged(a.comment_tree, id, c);
    }
}

/// A fresh application shows the (empty) flattening of its (empty) comment tree.
pub proof fn fresh_app_list_is_flattening(
    feed: crate::cli::Feed,
    count: usize,
    has_state_store: bool,
    levels: usize,
    now: u64,
)
    ensures
        list_is_flattening(crate::model::initial_spec(feed, count, has_state_store, levels, now)),
{
    assert(visible_comments(Seq::<crate::comments::NodeV>::empty()) =~= Seq::empty());
}

/// Every action keeps the comments shown the flattening of the comment tree; the
/// selected index of a collapse or expand is taken in that list.
#[verifier::rlimit(60)]
pub proof fn actions_keep_list_flattened(a: AppV, action: Action, now: u64)
    requires
        list_is_flattening(a),
    ensures
        list_is_flattening(action_spec(a, action, now).0),
{
    lemma_prefetch_keeps_comments();
    lemma_collapse_keeps_flattening(a);
    assert(visible_comments(Seq::<crate::comments::NodeV>::empty()) =~= Seq::empty());
    assert forall|b: AppV, pages: bool| #[trigger] after_story_move(b, pages, now).0.comment_list
        == b.comment_list && after_story_move(b, pages, now).0.comment_tree == b.comment_tree by {
    }
}

/// Every answered fetch keeps the comments shown the flattening of the comment tree.
#[verifier::rlimit(60)]
pub proof fn events_keep_list_flattened(a: AppV, ev: AppEventV, now: u64)
    requires
        list_is_flattening(a),
    ensures
        list_is_flattening(app_event_spec(a, ev, now).0),
{
    lemma_prefetch_keeps_comments();
}

/// A timer tick, a restored story list and a new layout keep the comments shown the
/// flattening of the comment tree.
pub proof fn other_steps_keep_list_flattened(
    a: AppV,
    now: u64,
    feed: Seq<char>,
    next_page: usize,
    end_reached: bool,
    stories: Seq<StoryV>,
    heights: Seq<usize>,
    viewport: usize,
)
    requires
        list_is_flattening(a),
    ensures
        list_is_flattening(tick_spec(a, now).0),
        list_is_flattening(crate::model::restore_spec(a, feed, next_page, end_reached, stories)),
        list_is_flattening(crate::layout::layout_spec(a, heights, viewport)),
{
    lemma_prefetch_keeps_comments();
}

/// Where the first of the first `n` candidates with id `id` stands, or -1.
pub open spec fn first_pos(c: Seq<StoryV>, id: Seq<char>, n: int) -> int
    decreases n,
{
    if n <= 0 || n > c.len() {
        -1
    } else if first_pos(c, id, n - 1) >= 0 {
        first_pos(c, id, n - 1)
    } else if c[n - 1].short_id == id {
        n - 1
    } else {
        -1
    }
}

/// Where the first candidate with id `id` stands, or -1.
pub open spec fn candidate_pos(c: Seq<StoryV>, id: Seq<char>) -> int {
    first_pos(c, id, c.len() as int)
}

proof fn lemma_first_pos_at(c: Seq<StoryV>, k: int, n: int)
    requires
        0 <= k < n <= c.len(),
        forall|m: int| 0 <= m < k ==> c[m].short_id != c[k].short_id,
    ensures
        first_pos(c, c[k].short_id, n) == k,
    decreases n,
{
    let id = c[k].short_id;
    if n - 1 > k {
        lemma_first_pos_at(c, k, n - 1);
    } else {
        lemma_first_pos_none(c, id, k);
    }
}

proof fn lemma_first_pos_none(c: Seq<StoryV>, id: Seq<char>, n: int)
    requires
        0 <= n <= c.len(),
        forall|m: int| 0 <= m < n ==> c[m].short_id != id,
    ensures
        first_pos(c, id, n) == -1,
    decreases n,
{
    if n > 0 {
        lemma_first_pos_none(c, id, n - 1);
    }
}

proof fn lemma_start_order(a: AppV, cands: Seq<StoryV>, k: int)
    requires
        0 <= k,
        forall|m: int| 0 <= m < k && m < cands.len() ==> a.in_flight.contains(#[trigger] cands[m].short_id),
    ensures
        ({
            let s = start_prefetches_spec(a, cands, k).0.in_flight;
            &&& a.in_flight.len() <= s.len()
            &&& s.take(a.in_flight.len() as int) == a.in_flight
            &&& forall|j: int|
                #![trigger s[j]]
                a.in_flight.len() <= j < s.len() ==> k <= candidate_pos(cands, s[j]) && cands[candidate_pos(cands, s[j])].short_id == s[j]
            &&& forall|j1: int, j2: int|
                #![trigger s[j1], s[j2]]
                a.in_flight.len() <= j1 < j2 < s.len() ==> candidate_pos(cands, s[j1])
                    < candidate_pos(cands, s[j2])
            &&& forall|j: int, m: int|
                #![trigger s[j], cands[m]]
                a.in_flight.len() <= j < s.len() && 0 <= m < candidate_pos(cands, s[j])
                    ==> s.contains(cands[m].short_id)
        }),
    decreases cands.len() - k,
{
    let s = start_prefetches_spec(a, cands, k).0.in_flight;
    if k >= cands.len() || a.in_flight.len() >= MAX_COMMENT_PREFETCH_IN_FLIGHT {
        assert(s.take(a.in_flight.len() as int) =~= a.in_flight);
    } else {
        let id = cands[k].short_id;
        let a1 = start_prefetch_spec(a, id).0;
        let f = a1.in_flight;
        assert forall|m: int| 0 <= m < k + 1 && m < cands.len() implies f.contains(#[trigger] cands[m].short_id) by {
            if m < k {
                assert(a.in_flight.contains(cands[m].short_id));
                let i = choose|i: int| 0 <= i < a.in_flight.len() && a.in_flight[i] == cands[m].short_id;
                assert(f[i] == a.in_flight[i]);
            } else if !a.in_flight.contains(id) {
                assert(f[f.len() - 1] == id);
            }
        }
        lemma_start_order(a1, cands, k + 1);
        assert(f.take(a.in_flight.len() as int) =~= a.in_flight);
        assert forall|j: int| 0 <= j < f.len() implies s[j] == f[j] by {
            assert(s.take(f.len() as int)[j] == f[j]);
        }
        assert(s.take(a.in_flight.len() as int) =~= a.in_flight);
        if !a.in_flight.contains(id) {
            assert forall|m: int| 0 <= m < k implies cands[m].short_id != cands[k].short_id by {
                assert(a.in_flight.contains(cands[m].short_id));
            }
            lemma_first_pos_at(cands, k, cands.len() as int);
            assert(candidate_pos(cands, s[a.in_flight.len() as int]) == k);
            assert forall|m: int| 0 <= m < k implies s.contains(#[trigger] cands[m].short_id) by {
                let i = choose|i: int| 0 <= i < a.in_flight.len() && a.in_flight[i] == cands[m].short_id;
                assert(s[i] == a.in_flight[i]);
            }
        }
    }
}

/// Comment prefetching starts the first candidate stories, in order, until the
/// maximum is under way: the ids it adds follow the candidates' order, each is a
/// candidate's id, and every candidate before an added one is under way too (added
/// or already under way).
pub proof fn comment_prefetch_takes_first_candidates(a: AppV, now: u64)
    ensures
        ({
            let r = prefetch_comments_spec(a, now).0.in_flight;
            let cands = prefetch_candidates_spec(a);
            &&& r.take(a.in_flight.len() as int) == a.in_flight
            &&& forall|j: int|
                #![trigger r[j]]
                a.in_flight.len() <= j < r.len() ==> 0 <= candidate_pos(cands, r[j])
                    && cands[candidate_pos(cands, r[j])].short_id == r[j]
            &&& forall|j1: int, j2: int|
                #![trigger r[j1], r[j2]]
                a.in_flight.len() <= j1 < j2 < r.len() ==> candidate_pos(cands, r[j1])
                    < candidate_pos(cands, r[j2])
            &&& forall|j: int, m: int|
                #![trigger r[j], cands[m]]
                a.in_flight.len() <= j < r.len() && 0 <= m < candidate_pos(cands, r[j])
                    ==> r.contains(cands[m].short_id)
        }),
{
    let r = prefetch_comments_spec(a, now).0.in_flight;
    lemma_start_order(a, prefetch_candidates_spec(a), 0);
    if r == a.in_flight {
        assert(r.take(a.in_flight.len() as int) =~= a.in_flight);
    }
}

/// Toggling the selected comment, where it has replies, flips its collapsed flag in
/// the tree: a collapsed thread opens and an open one closes; the comments shown
/// stay the tree's flattening. Nothing moves in the tree and no comment with another
/// id changes; toggling changes nothing where the comment has no replies.
pub proof fn toggle_flips_the_selected_thread(a: AppV)
    requires
        list_is_flattening(a),
        a.comment_list_state.selected is Some,
        a.comment_list_state.selected->0 < a.comment_list.len(),
    ensures
        ({
            let cm = a.comment_list[a.comment_list_state.selected->0 as int];
            let b = crate::model::toggle_selected_spec(a);
            &&& cm.kids.len() > 0 ==> crate::tree_laws::collapsed_flag(b.comment_tree, cm.id)
                == Some(!cm.collapsed)
            &&& cm.kids.len() == 0 ==> b == a
            &&& list_is_flattening(b)
            &&& crate::tree_laws::shape(b.comment_tree) == crate::tree_laws::shape(a.comment_tree)
            &&& crate::tree_laws::alike_but(
                crate::tree_laws::all_comments(b.comment_tree),
                crate::tree_laws::all_comments(a.comment_tree),
                cm.id,
            )
        }),
{
    let sel = a.comment_list_state.selected->0 as int;
    let cm = a.comment_list[sel];
    crate::tree_laws::set_collapse_touches_only_that_flag(a.comment_tree, cm.id, !cm.collapsed);
    let all = crate::tree_laws::all_comments(a.comment_tree);
    assert(crate::tree_laws::alike_but(all, all, cm.id));
    crate::tree_laws::shown_comments_are_in_the_tree(a.comment_tree, sel);
    crate::tree_laws::unknown_comment_leaves_tree_unchanged(a.comment_tree, cm.id, !cm.collapsed);
    crate::tree_laws::set_collapse_sets_the_flag(a.comment_tree, cm.id, !cm.collapsed);
    lemma_collapse_keeps_flattening(a);
}

/// Where the tree has a comment's id, toggling it and then toggling it back (the
/// flag set away from its value and then to it again) gives back the tree.
pub proof fn toggling_back_restores_the_thread(a: AppV)
    requires
        list_is_flattening(a),
        a.comment_list_state.selected is Some,
        a.comment_list_state.selected->0 < a.comment_list.len(),
        a.comment_list[a.comment_list_state.selected->0 as int].kids.len() > 0,
    ensures
        ({
            let cm = a.comment_list[a.comment_list_state.selected->0 as int];
            let f = crate::tree_laws::collapsed_flag(a.comment_tree, cm.id)->0;
            let b = crate::model::collapse_by_id_spec(a, cm.id, !f);
            crate::model::collapse_by_id_spec(b, cm.id, f).comment_tree == a.comment_tree
        }),
{
    let sel = a.comment_list_state.selected->0 as int;
    let cm = a.comment_list[sel];
    crate::tree_laws::shown_comments_are_in_the_tree(a.comment_tree, sel);
    let f = crate::tree_laws::collapsed_flag(a.comment_tree, cm.id)->0;
    crate::tree_laws::unknown_comment_leaves_tree_unchanged(a.comment_tree, cm.id, !f);
    let t1 = set_collapse_spec(a.comment_tree, cm.id, !f).0;
    crate::tree_laws::set_collapse_sets_the_flag(a.comment_tree, cm.id, !f);
    crate::tree_laws::unknown_comment_leaves_tree_unchanged(t1, cm.id, f);
    crate::tree_laws::flag_there_and_back_restores(a.comment_tree, cm.id, f);
}

/// Collapsing (`c`) or expanding (`!c`) the selected comment, where it has replies,
/// gives it that flag in the tree, unless collapsing a comment already collapsed,
/// which changes nothing; nothing moves and no comment with another id changes.
pub proof fn collapse_and_expand_set_the_selected_thread(a: AppV, c: bool)
    requires
        list_is_flattening(a),
        a.comment_list_state.selected is Some,
        a.comment_list_state.selected->0 < a.comment_list.len(),
        a.comment_list[a.comment_list_state.selected->0 as int].kids.len() > 0,
    ensures
        ({
            let cm = a.comment_list[a.comment_list_state.selected->0 as int];
            let b = crate::model::set_selected_collapse_spec(a, c);
            &&& (c && cm.collapsed) ==> b == a
            &&& !(c && cm.collapsed) ==> crate::tree_laws::collapsed_flag(b.comment_tree, cm.id)
                == Some(c)
            &&& list_is_flattening(b)
            &&& crate::tree_laws::shape(b.comment_tree) == crate::tree_laws::shape(a.comment_tree)
            &&& crate::tree_laws::alike_but(
                crate::tree_laws::all_comments(b.comment_tree),
                crate::tree_laws::all_comments(a.comment_tree),
                cm.id,
            )
        }),
{
    let sel = a.comment_list_state.selected->0 as int;
    let cm = a.comment_list[sel];
    crate::tree_laws::shown_comments_are_in_the_tree(a.comment_tree, sel);
    crate::tree_laws::unknown_comment_leaves_tree_unchanged(a.comment_tree, cm.id, c);
    crate::tree_laws::set_collapse_sets_the_flag(a.comment_tree, cm.id, c);
    crate::tree_laws::set_collapse_touches_only_that_flag(a.comment_tree, cm.id, c);
    let all = crate::tree_laws::all_comments(a.comment_tree);
    assert(crate::tree_laws::alike_but(all, all, cm.id));
    lemma_collapse_keeps_flattening(a);
}

} // verus!
