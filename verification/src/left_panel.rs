use vstd::prelude::*;

verus! {

/// Delay, in milliseconds, between the last keystroke in the search field and the search.
pub const SEARCH_DELAY_MS: u64 = 300;

/// The tabs of the left panel.
#[derive(Debug, Clone, Copy, PartialEq, Eq, Structural)]
pub enum LeftPanelTabs {
    Files,
    Effects,
}

/// State of the left panel: the open tab and the search field, whose search
/// starts once the text has stayed the same for `SEARCH_DELAY_MS`.
pub struct UILeftPanel {
    pub tab: LeftPanelTabs,
    pub search: String,
    last_search: String,
    /// When the search text last changed, in milliseconds on the caller's clock.
    last_search_time: Option<u64>,
}

/// Mathematical model of the left panel.
pub struct LeftPanelView {
    pub tab: LeftPanelTabs,
    pub search: Seq<char>,
    pub last_search: Seq<char>,
    pub last_search_time: Option<u64>,
}

impl View for UILeftPanel {
    type V = LeftPanelView;

    closed spec fn view(&self) -> LeftPanelView {
        LeftPanelView {
            tab: self.tab,
            search: self.search@,
            last_search: self.last_search@,
            last_search_time: self.last_search_time,
        }
    }
}

/// What one frame of the search field does at time `now`: the next state,
/// and the query to search for, if the search is due.
pub open spec fn search_step(p: LeftPanelView, now: u64) -> (LeftPanelView, Option<Seq<char>>) {
    if p.search != p.last_search {
        (LeftPanelView { last_search: p.search, last_search_time: Some(now), ..p }, None)
    } else {
        match p.last_search_time {
            Some(t) => if (if now >= t { now - t } else { 0 }) >= SEARCH_DELAY_MS {
                (LeftPanelView { last_search_time: None, ..p }, Some(p.search))
            } else {
                (p, None)
            },
            None => (p, None),
        }
    }
}

impl UILeftPanel {
    /// The panel on the files tab with an empty search.
    pub fn new() -> (p: Self)
        ensures
            p@.tab == LeftPanelTabs::Files,
            p@.search.len() == 0,
            p@.last_search.len() == 0,
            p@.last_search_time is None,
    {
        UILeftPanel {
            tab: LeftPanelTabs::Files,
            search: String::new(),
            last_search: String::new(),
            last_search_time: None,
        }
    }

    /// Opens a tab.
    pub fn select_tab(&mut self, tab: LeftPanelTabs)
        ensures
            final(self)@ == (LeftPanelView { tab, ..old(self)@ }),
    {
        self.tab = tab;
    }

    /// Replaces the text of the search field.
    pub fn set_search(&mut self, text: String)
        ensures
            final(self)@ == (LeftPanelView { search: text@, ..old(self)@ }),
    {
        self.search = text;
    }

    /// Runs one frame of the search field at time `now_ms`: a changed text
    /// restarts the delay; a text unchanged for the whole delay is returned,
    /// once, as the query to search for.
    pub fn search_tick(&mut self, now_ms: u64) -> (query: Option<String>)
        ensures
            final(self)@ == search_step(old(self)@, now_ms).0,
            search_step(old(self)@, now_ms).1 == match query {
                Some(q) => Some(q@),
                None => None,
            },
    {
        if self.search != self.last_search {
            self.last_search = self.search.clone();
            self.last_search_time = Some(now_ms);
            None
        } else {
            match self.last_search_time {
                Some(t) => {
                    if now_ms.saturating_sub(t) >= SEARCH_DELAY_MS {
                        self.last_search_time = None;
                        Some(self.search.clone())
                    } else {
                        None
                    }
                },
                None => None,
            }
        }
    }
}

/// Once the text has changed, the search is not due in that same frame, and it
/// is due at any later frame at least `SEARCH_DELAY_MS` later if the text
/// stays the same.
pub proof fn law_search_debounce(p: LeftPanelView, now: u64, later: u64)
    requires
        p.search != p.last_search,
        later >= now + SEARCH_DELAY_MS,
    ensures
        search_step(p, now).1 is None,
        search_step(search_step(p, now).0, later).1 == Some(p.search),
        search_step(search_step(p, now).0, later).0.last_search_time is None,
{
}

} // verus!
