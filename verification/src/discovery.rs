//! The public directory browser: each row's join button state and its
//! summary line.

use vstd::prelude::*;

use crate::model::{Duplicate, PublicRoom, PublicSpace};
use crate::store::{entries_distinct, find_entry, lemma_entry_index, store_view};
use crate::text::{chars_of, dec, push_dec, push_str, str_eq, string_from_chars};

verus! {

/// A row's join button.
#[derive(Debug, Clone, PartialEq, Eq)]
pub enum JoinRow {
    Idle,
    Joining,
    Joined,
    /// The join failed with this message (the button offers a retry).
    Failed(String),
}

pub open spec fn join_row_view() -> spec_fn(JoinRow) -> JoinRow {
    |j: JoinRow| j
}

impl Duplicate for JoinRow {
    fn duplicate(&self) -> (r: JoinRow) {
        match self {
            JoinRow::Idle => JoinRow::Idle,
            JoinRow::Joining => JoinRow::Joining,
            JoinRow::Joined => JoinRow::Joined,
            JoinRow::Failed(m) => JoinRow::Failed(m.duplicate()),
        }
    }
}

/// A row's state: what its own join attempt left, else joined when the
/// account already belongs to the room, else idle.
pub fn row_state(attempts: &Vec<(String, JoinRow)>, joined: &Vec<String>, id: &str) -> (r: JoinRow)
    requires
        entries_distinct(attempts@),
    ensures
        store_view(attempts@, join_row_view()).contains_key(id@) ==> r == store_view(attempts@, join_row_view())[id@],
        !store_view(attempts@, join_row_view()).contains_key(id@) ==> r == if crate::model::strings_view(joined@).contains(id@) {
            JoinRow::Joined
        } else {
            JoinRow::Idle
        },
{
    if let Some(i) = find_entry(attempts, id) {
        proof {
            lemma_entry_index(attempts@, i as int);
        }
        return attempts[i].1.duplicate();
    }
    let ghost js = crate::model::strings_view(joined@);
    for k in 0..joined.len()
        invariant
            !store_view(attempts@, join_row_view()).contains_key(id@),
            js == crate::model::strings_view(joined@),
            forall|q: int| 0 <= q < k ==> js[q] != id@,
    {
        if crate::text::str_eq(joined[k].as_str(), id) {
            assert(js[k as int] == id@);
            return JoinRow::Joined;
        }
    }
    JoinRow::Idle
}

/// Records the state a join attempt reached for a row.
pub fn set_row_state(attempts: &mut Vec<(String, JoinRow)>, id: &str, state: JoinRow)
    requires
        entries_distinct(old(attempts)@),
    ensures
        entries_distinct(final(attempts)@),
        store_view(final(attempts)@, join_row_view()) == store_view(old(attempts)@, join_row_view()).insert(id@, state),
{
    let ghost e = attempts@;
    match find_entry(attempts, id) {
        Some(i) => {
            let (k, _) = attempts.remove(i);
            let ghost entry = (k, state);
            attempts.insert(i, (k, state));
            proof {
                assert(attempts@ =~= e.update(i as int, entry));
                crate::store::lemma_store_update(e, i as int, entry, join_row_view());
            }
        },
        None => {
            let entry = (crate::text::owned(id), state);
            proof {
                crate::store::lemma_store_push(e, entry, join_row_view());
            }
            attempts.push(entry);
        },
    }
}

/// A row's topic, or "No topic" for an empty one.
pub fn topic_or_none(topic: &str) -> (r: &str)
    ensures
        r@ == if topic@.len() == 0 { "No topic"@ } else { topic@ },
{
    if topic.is_empty() {
        "No topic"
    } else {
        topic
    }
}

/// A row's summary line: its topic and member count.
pub fn row_summary(topic: &str, members: u32) -> (s: String)
    ensures
        s@ == (if topic@.len() == 0 { "No topic"@ } else { topic@ }) + " \u{b7} "@ + dec(members as nat)
            + " members"@,
{
    let mut v = chars_of(topic_or_none(topic));
    push_str(&mut v, " \u{b7} ");
    push_dec(&mut v, members as u64);
    push_str(&mut v, " members");
    string_from_chars(v.as_slice())
}

/// The label of a row's join button.
pub open spec fn join_label(state: JoinRow) -> Seq<char> {
    match state {
        JoinRow::Idle => "Join"@,
        JoinRow::Joining => "Joining\u{2026}"@,
        JoinRow::Joined => "Joined"@,
        JoinRow::Failed(_) => "Retry"@,
    }
}

/// What a row's join button offers: its label and whether it can be
/// pressed (idle rows join, failed rows retry).
pub fn join_button(state: &JoinRow) -> (r: (&'static str, bool))
    ensures
        r.0@ == join_label(*state),
        r.1 == (*state is Idle || *state is Failed),
{
    match state {
        JoinRow::Idle => ("Join", true),
        JoinRow::Joining => ("Joining\u{2026}", false),
        JoinRow::Joined => ("Joined", false),
        JoinRow::Failed(_) => ("Retry", true),
    }
}

// ----------------------------------------------------------------------
// The directory browser
// ----------------------------------------------------------------------

/// The browser's two tabs.
#[derive(Debug, Clone, Copy, PartialEq, Eq, Structural)]
pub enum DiscoveryTab {
    Rooms,
    Spaces,
}

/// One page the directory answered: its entries and the token of the next.
pub enum DirPage {
    Rooms(Vec<PublicRoom>, Option<String>),
    Spaces(Vec<PublicSpace>, Option<String>),
}

/// A directory request the browser wants made: the tab, the search term,
/// the page token (`None` for the first page), and the generation it
/// belongs to.
pub struct PageRequest {
    pub tab: DiscoveryTab,
    pub query: String,
    pub token: Option<String>,
    pub generation: u64,
}

/// The directory browser: the tab, the typed and the searched query, the
/// accumulated results and next-page tokens of both tabs, what is loading,
/// the last error, and the generation of the newest first-page fetch (only
/// it may write results).
pub struct DirectoryState {
    pub tab: DiscoveryTab,
    pub query: String,
    pub debounced: String,
    pub generation: u64,
    pub rooms: Vec<PublicRoom>,
    pub rooms_next: Option<String>,
    pub spaces: Vec<PublicSpace>,
    pub spaces_next: Option<String>,
    pub loading: bool,
    pub loading_more: bool,
    pub error: Option<String>,
}

impl DirectoryState {
    /// A fresh browser on the rooms tab; the first page is loading.
    pub fn new() -> (s: DirectoryState)
        ensures
            s.tab == DiscoveryTab::Rooms,
            s.query@.len() == 0 && s.debounced@.len() == 0,
            s.generation == 0,
            s.rooms@.len() == 0 && s.rooms_next is None,
            s.spaces@.len() == 0 && s.spaces_next is None,
            s.loading && !s.loading_more,
            s.error is None,
    {
        DirectoryState {
            tab: DiscoveryTab::Rooms,
            query: String::new(),
            debounced: String::new(),
            generation: 0,
            rooms: Vec::new(),
            rooms_next: None,
            spaces: Vec::new(),
            spaces_next: None,
            loading: true,
            loading_more: false,
            error: None,
        }
    }

    /// The debounce delay ran out for the query `q` typed back then: it
    /// becomes the searched query when it is still the typed one and not
    /// searched yet. Returns whether the searched query changed (a first
    /// page is then due).
    pub fn debounce_elapsed(&mut self, q: &str) -> (changed: bool)
        ensures
            changed == (old(self).query@ == q@ && old(self).debounced@ != q@),
            changed ==> final(self).debounced@ == q@,
            !changed ==> final(self).debounced == old(self).debounced,
            final(self).query == old(self).query,
            final(self).tab == old(self).tab,
            final(self).generation == old(self).generation,
            final(self).rooms == old(self).rooms,
            final(self).spaces == old(self).spaces,
            final(self).loading == old(self).loading,
            final(self).error == old(self).error,
    {
        if str_eq(self.query.as_str(), q) && !str_eq(self.debounced.as_str(), q) {
            self.debounced = crate::text::owned(q);
            true
        } else {
            false
        }
    }

    /// Starts a first-page fetch of the active tab for the searched query
    /// (on a new search, a tab switch or a retry): a new generation, the
    /// error cleared, loading.
    pub fn start_fetch(&mut self) -> (req: PageRequest)
        requires
            old(self).generation < u64::MAX,
        ensures
            final(self).generation == old(self).generation + 1,
            final(self).error is None,
            final(self).loading,
            req.tab == old(self).tab,
            req.query@ == old(self).debounced@,
            req.token is None,
            req.generation == final(self).generation,
            final(self).tab == old(self).tab,
            final(self).debounced == old(self).debounced,
            final(self).rooms == old(self).rooms,
            final(self).rooms_next == old(self).rooms_next,
            final(self).spaces == old(self).spaces,
            final(self).spaces_next == old(self).spaces_next,
            final(self).loading_more == old(self).loading_more,
    {
        self.generation = self.generation + 1;
        self.error = None;
        self.loading = true;
        PageRequest { tab: self.tab, query: self.debounced.duplicate(), token: None, generation: self.generation }
    }

    /// A first page arrived for generation `generation`: ignored when a
    /// newer fetch owns the results; otherwise loading ends and the page
    /// replaces its tab's results, or its error is shown.
    pub fn first_page_arrived(&mut self, generation: u64, result: Result<DirPage, String>)
        ensures
            generation != old(self).generation ==> *final(self) == *old(self),
            generation == old(self).generation ==> {
                &&& !final(self).loading
                &&& final(self).generation == old(self).generation
                &&& final(self).loading_more == old(self).loading_more
                &&& match result {
                    Ok(DirPage::Rooms(items, next)) => final(self).rooms == items && final(self).rooms_next == next
                        && final(self).spaces == old(self).spaces && final(self).spaces_next == old(self).spaces_next
                        && final(self).error == old(self).error,
                    Ok(DirPage::Spaces(items, next)) => final(self).spaces == items && final(self).spaces_next == next
                        && final(self).rooms == old(self).rooms && final(self).rooms_next == old(self).rooms_next
                        && final(self).error == old(self).error,
                    Err(e) => final(self).error == Some(e) && final(self).rooms == old(self).rooms
                        && final(self).spaces == old(self).spaces,
                }
            },
    {
        if generation != self.generation {
            return;
        }
        self.loading = false;
        match result {
            Ok(DirPage::Rooms(items, next)) => {
                self.rooms = items;
                self.rooms_next = next;
            },
            Ok(DirPage::Spaces(items, next)) => {
                self.spaces = items;
                self.spaces_next = next;
            },
            Err(e) => {
                self.error = Some(e);
            },
        }
    }

    /// "Show more": the next page of the active tab, when it has one.
    pub fn load_more(&mut self) -> (req: Option<PageRequest>)
        ensures
            match (if old(self).tab == DiscoveryTab::Rooms { old(self).rooms_next } else { old(self).spaces_next }) {
                Some(t) => req matches Some(r) && r.tab == old(self).tab && r.query@ == old(self).debounced@
                    && r.token == Some(t) && r.generation == old(self).generation && final(self).loading_more,
                None => req is None && final(self).loading_more == old(self).loading_more,
            },
            final(self).generation == old(self).generation,
            final(self).rooms == old(self).rooms,
            final(self).spaces == old(self).spaces,
            final(self).loading == old(self).loading,
    {
        let next = match self.tab {
            DiscoveryTab::Rooms => self.rooms_next.duplicate(),
            DiscoveryTab::Spaces => self.spaces_next.duplicate(),
        };
        match next {
            Some(token) => {
                self.loading_more = true;
                Some(PageRequest {
                    tab: self.tab,
                    query: self.debounced.duplicate(),
                    token: Some(token),
                    generation: self.generation,
                })
            },
            None => None,
        }
    }

    /// A further page arrived: loading more ends; unless a newer first-page
    /// fetch superseded it, its entries are appended to its tab, or its
    /// error is shown.
    pub fn more_arrived(&mut self, generation: u64, result: Result<DirPage, String>)
        ensures
            !final(self).loading_more,
            final(self).generation == old(self).generation,
            final(self).loading == old(self).loading,
            generation != old(self).generation ==> final(self).rooms == old(self).rooms && final(self).spaces
                == old(self).spaces && final(self).rooms_next == old(self).rooms_next && final(self).spaces_next
                == old(self).spaces_next && final(self).error == old(self).error,
            generation == old(self).generation ==> match result {
                Ok(DirPage::Rooms(items, next)) => final(self).rooms@ == old(self).rooms@ + items@
                    && final(self).rooms_next == next && final(self).spaces == old(self).spaces,
                Ok(DirPage::Spaces(items, next)) => final(self).spaces@ == old(self).spaces@ + items@
                    && final(self).spaces_next == next && final(self).rooms == old(self).rooms,
                Err(e) => final(self).error == Some(e) && final(self).rooms == old(self).rooms
                    && final(self).spaces == old(self).spaces,
            },
    {
        self.loading_more = false;
        if generation != self.generation {
            return;
        }
        match result {
            Ok(DirPage::Rooms(items, next)) => {
                let mut items = items;
                self.rooms.append(&mut items);
                self.rooms_next = next;
            },
            Ok(DirPage::Spaces(items, next)) => {
                let mut items = items;
                self.spaces.append(&mut items);
                self.spaces_next = next;
            },
            Err(e) => {
                self.error = Some(e);
            },
        }
    }

    /// The notice in place of the list: searching while the first page
    /// loads, "nothing found" for an empty tab without error.
    pub fn list_notice(&self) -> (r: Option<&'static str>)
        ensures
            match r {
                Some(n) => if self.loading {
                    n@ == "Searching\u{2026}"@
                } else {
                    (if self.tab == DiscoveryTab::Rooms { self.rooms@.len() } else { self.spaces@.len() }) == 0
                        && self.error is None && n@ == if self.tab == DiscoveryTab::Rooms {
                        "No rooms found."@
                    } else {
                        "No spaces found."@
                    }
                },
                None => !self.loading && ((if self.tab == DiscoveryTab::Rooms {
                    self.rooms@.len()
                } else {
                    self.spaces@.len()
                }) > 0 || self.error is Some),
            },
    {
        let (rooms_tab, n) = match self.tab {
            DiscoveryTab::Rooms => (true, self.rooms.len()),
            DiscoveryTab::Spaces => (false, self.spaces.len()),
        };
        if self.loading {
            Some("Searching\u{2026}")
        } else if n == 0 && self.error.is_none() {
            Some(if rooms_tab { "No rooms found." } else { "No spaces found." })
        } else {
            None
        }
    }

    /// The "Show more" button: shown when the tab has a next page and the
    /// first page is not loading; it reads "Loading…" while a page loads.
    pub fn more_button(&self) -> (r: Option<&'static str>)
        ensures
            match r {
                Some(l) => !self.loading && (if self.tab == DiscoveryTab::Rooms {
                    self.rooms_next
                } else {
                    self.spaces_next
                }) is Some && l@ == if self.loading_more { "Loading\u{2026}"@ } else { "Show more"@ },
                None => self.loading || (if self.tab == DiscoveryTab::Rooms {
                    self.rooms_next
                } else {
                    self.spaces_next
                }) is None,
            },
    {
        let has_next = match self.tab {
            DiscoveryTab::Rooms => self.rooms_next.is_some(),
            DiscoveryTab::Spaces => self.spaces_next.is_some(),
        };
        if !self.loading && has_next {
            Some(if self.loading_more { "Loading\u{2026}" } else { "Show more" })
        } else {
            None
        }
    }
}


/// The join button says where a row stands: `Join` before joining,
/// `Joining…` while it runs, `Joined` after, `Retry` after a failure; each
/// state reads differently.
pub proof fn law_join_button_says_where_it_stands(a: JoinRow, b: JoinRow, why: String)
    ensures
        join_label(JoinRow::Idle) == "Join"@,
        join_label(JoinRow::Joining) == "Joining\u{2026}"@,
        join_label(JoinRow::Joined) == "Joined"@,
        join_label(JoinRow::Failed(why)) == "Retry"@,
        !(a is Failed && b is Failed) && a != b ==> join_label(a) != join_label(b),
{
    reveal_strlit("Join");
    reveal_strlit("Joining\u{2026}");
    reveal_strlit("Joined");
    reveal_strlit("Retry");
    if !(a is Failed && b is Failed) && a != b && join_label(a) == join_label(b) {
        assert(join_label(a).len() == join_label(b).len());
        assert(join_label(a)[0] == join_label(b)[0]);
        assert(false);
    }
}

} // verus!
