//! The state of the application and the decisions it takes on each frame
//! and on each command of the user. Reading and writing files, dialogs and
//! drawing are left to the caller, who performs the action a decision names
//! and reports its outcome back.
use vstd::prelude::*;
use crate::budget::{budget_from_columns, delta_lines, drain_budget, editable_budget, editable_line};
use crate::config::Config;
use crate::records::{opt_text, BudgetRow, StatementRecord, StatementRow, SummaryRow, statement_lines, summary_lines};
use crate::statement::{categorised, keep_categorised};
use crate::summary::{period_summary, summarize, summary_fits};
use crate::tabs::Tabs;
use crate::text::texts;

verus! {

/// The application's state.
pub struct Budgy {
    /// The summary of the period, once computed.
    pub budget_summary: Option<Vec<SummaryRow>>,
    /// The budget table has been taken into the editor.
    pub budget_shown: bool,
    /// The stored budget, once read.
    pub budget: Option<Vec<BudgetRow>>,
    /// The statement table is on display.
    pub statement_shown: bool,
    /// The statement, once read.
    pub statement: Option<Vec<StatementRow>>,
    /// The previous period's summary, once read.
    pub previous_summary: Option<Vec<SummaryRow>>,
    /// The budget as the user edits it.
    pub budget_deltas: Vec<(String, i64)>,
    /// The budget table should scroll to its last line when next drawn.
    pub scroll_budget_to_bottom: bool,
    /// The tab on display.
    pub current_tab: Tabs,
    /// The settings.
    pub config: Config,
}

/// What to do where a file is to be exported.
#[derive(Clone, Debug, PartialEq, Eq)]
pub enum ExportTarget {
    /// Write next to this statement, under the summary's file name.
    NextTo(String),
    /// Ask the user where to write.
    Ask,
}

/// What the statement tab does on a frame.
#[derive(Clone, Debug, PartialEq, Eq)]
pub enum StatementTabAction {
    /// Draw the statement table.
    ShowTable,
    /// The statement has just been taken for display.
    Collected,
    /// Read the statement at this path and report it back.
    Load(String),
    /// Invite the user to open a statement.
    ShowHint,
}

/// What the budget tab does on a frame.
#[derive(Clone, Debug, PartialEq, Eq)]
pub enum BudgetTabAction {
    /// Draw the budget editor.
    ShowTable,
    /// The stored budget has just been taken into the editor.
    Collected,
    /// Read the stored budget and report it back.
    LoadBudget,
}

/// What the summary tab does on a frame.
#[derive(Clone, Debug, PartialEq, Eq)]
pub enum SummaryTabAction {
    /// Draw the summary.
    ShowTable,
    /// A summary was just computed (or found impossible; it is then tried again).
    Computed,
    /// Read the previous summary and report it back.
    LoadPreviousSummary,
    /// There is a statement but no budget.
    NoBudget,
    /// There is no statement yet.
    MissingStatement,
}

/// The texts hold no text twice.
pub open spec fn no_duplicates(s: Seq<Seq<char>>) -> bool {
    forall|i: int, j: int| 0 <= i < j < s.len() ==> s[i] != s[j]
}

/// The recent list after importing `path`: unchanged when it already lists
/// that path, otherwise with `path` as its new first entry.
pub open spec fn with_recent(recents: Seq<Seq<char>>, path: Seq<char>, listed: bool) -> Seq<
    Seq<char>,
> {
    if listed {
        recents
    } else {
        seq![path] + recents
    }
}

/// Importing a path adds to the recent list and takes nothing from it: a
/// path it does not list becomes the new first entry, one longer than the
/// old list, whose entries follow in their old order; a listed path leaves
/// the list as it was.
pub proof fn law_import_keeps_recents(recents: Seq<Seq<char>>, path: Seq<char>, listed: bool)
    ensures
        listed ==> with_recent(recents, path, listed) == recents,
        !listed ==> with_recent(recents, path, listed).len() == recents.len() + 1,
        !listed ==> with_recent(recents, path, listed)[0] == path,
        !listed ==> with_recent(recents, path, listed).subrange(1, (recents.len() + 1) as int) == recents,
        forall|i: int| 0 <= i < recents.len() ==> #[trigger] with_recent(recents, path, listed).contains(recents[i]),
{
    let r = with_recent(recents, path, listed);
    if !listed {
        assert(r.subrange(1, (recents.len() + 1) as int) =~= recents);
        assert forall|i: int| 0 <= i < recents.len() implies #[trigger] r.contains(recents[i]) by {
            assert(r[i + 1] == recents[i]);
        }
    } else {
        assert forall|i: int| 0 <= i < recents.len() implies #[trigger] r.contains(recents[i]) by {
            assert(r[i] == recents[i]);
        }
    }
}

/// Whether `std::path::Path`'s `==` finds two different texts to name the
/// same path (it compares them component by component, by the path syntax
/// of the target the program is built for).
pub uninterp spec fn distinct_texts_same_path(a: Seq<char>, b: Seq<char>) -> bool;

/// The two texts name the same path: they are the same text, or `Path`'s
/// `==` finds their components equal.
pub open spec fn same_path_as(a: Seq<char>, b: Seq<char>) -> bool {
    a == b || distinct_texts_same_path(a, b)
}

/// Some entry of `recents` names the same path as `path`.
pub open spec fn listed_path(recents: Seq<Seq<char>>, path: Seq<char>) -> bool {
    exists|i: int| 0 <= i < recents.len() && #[trigger] same_path_as(recents[i], path)
}

/// Compares two texts as paths with `std::path::Path`'s `==`, which compares
/// them component by component.
///
/// Claimed of it: the outcome is a function of the two texts (for the path
/// syntax of the build target), and a text names the same path as itself.
#[verifier::external_body]
fn same_path(a: &str, b: &str) -> (same: bool)
    ensures
        same == (a@ == b@ || distinct_texts_same_path(a@, b@)),
{
    std::path::Path::new(a) == std::path::Path::new(b)
}

/// Whether a list of paths holds `path`, compared as paths, entry by entry.
fn lists_path(list: &Vec<String>, path: &String) -> (r: bool)
    ensures
        r == listed_path(texts(list@), path@),
{
    let n = list.len();
    for i in 0..n
        invariant
            n == list.len(),
            forall|j: int| 0 <= j < i ==> !#[trigger] same_path_as(texts(list@)[j], path@),
    {
        if same_path(list[i].as_str(), path.as_str()) {
            assert(same_path_as(texts(list@)[i as int], path@));
            return true;
        }
    }
    false
}

/// One frame of the budget tab, from state `pre` to state `post`, doing
/// `action`: a budget already in the editor is drawn and nothing changes; a
/// budget not yet read is asked for and nothing changes; a budget read but
/// not yet in the editor has its lines appended to the editor, which is then
/// marked as holding it.
pub open spec fn budget_step(pre: Budgy, post: Budgy, action: BudgetTabAction) -> bool {
    &&& pre.budget_shown ==> (action is ShowTable) && post == pre
    &&& !pre.budget_shown && pre.budget is None ==> (action is LoadBudget) && post == pre
    &&& !pre.budget_shown && pre.budget is Some ==> {
        &&& action is Collected
        &&& post.budget_shown
        &&& delta_lines(post.budget_deltas@) == delta_lines(pre.budget_deltas@)
            + pre.budget->0@.map_values(|r: BudgetRow| editable_line(r))
        &&& post.config == pre.config
        &&& post.budget_summary == pre.budget_summary
        &&& post.budget == pre.budget
        &&& post.statement_shown == pre.statement_shown
        &&& post.statement == pre.statement
        &&& post.previous_summary == pre.previous_summary
        &&& post.scroll_budget_to_bottom == pre.scroll_budget_to_bottom
        &&& post.current_tab == pre.current_tab
    }
}

/// After the first of a run of budget frames, every later frame leaves the
/// state as the first left it.
proof fn lemma_budget_frames_settle(states: Seq<Budgy>, actions: Seq<BudgetTabAction>, i: int)
    requires
        states.len() == actions.len() + 1,
        forall|j: int| 0 <= j < actions.len() ==> budget_step(#[trigger] states[j], states[j + 1], actions[j]),
        states[1].budget_shown,
        1 <= i < states.len(),
    ensures
        states[i] == states[1],
        i < actions.len() ==> actions[i] is ShowTable,
    decreases i,
{
    if i > 1 {
        lemma_budget_frames_settle(states, actions, i - 1);
        assert(budget_step(states[i - 1], states[i], actions[i - 1]));
    }
    if i < actions.len() {
        assert(budget_step(states[i], states[i + 1], actions[i]));
    }
}

/// Frames of the budget tab put the stored budget into the editor once: over
/// any run of one or more frames that starts with the budget read but not
/// yet in the editor, the first frame appends the budget's lines, every
/// later frame only draws, and the editor ends with its earlier lines
/// followed by the budget's lines exactly once.
pub proof fn law_budget_collected_once(states: Seq<Budgy>, actions: Seq<BudgetTabAction>)
    requires
        actions.len() >= 1,
        states.len() == actions.len() + 1,
        forall|j: int| 0 <= j < actions.len() ==> budget_step(#[trigger] states[j], states[j + 1], actions[j]),
        !states[0].budget_shown,
        states[0].budget is Some,
    ensures
        actions[0] is Collected,
        forall|i: int| 1 <= i < actions.len() ==> #[trigger] actions[i] is ShowTable,
        states.last().budget_shown,
        delta_lines(states.last().budget_deltas@) == delta_lines(states[0].budget_deltas@)
            + states[0].budget->0@.map_values(|r: BudgetRow| editable_line(r)),
{
    assert(budget_step(states[0], states[1], actions[0]));
    lemma_budget_frames_settle(states, actions, states.len() - 1);
    assert forall|i: int| 1 <= i < actions.len() implies #[trigger] actions[i] is ShowTable by {
        lemma_budget_frames_settle(states, actions, i);
    }
}

impl Budgy {
    /// A fresh state with the given settings; a statement named on the
    /// command line replaces the one in use. The budget is what was read
    /// from storage, if anything.
    pub fn new(config: Config, statement_path: Option<String>, budget: Option<Vec<BudgetRow>>) -> (b: Self)
        ensures
            b.config.recents == config.recents,
            b.config.categories == config.categories,
            b.config.statement_path == (match statement_path {
                Some(p) => Some(p),
                None => config.statement_path,
            }),
            b.budget == budget,
            b.budget_summary is None,
            !b.budget_shown,
            b.statement is None,
            !b.statement_shown,
            b.previous_summary is None,
            b.budget_deltas@.len() == 0,
            !b.scroll_budget_to_bottom,
            b.current_tab == Tabs::Statement,
    {
        let mut config = config;
        config.statement_path = match statement_path {
            Some(p) => Some(p),
            None => config.statement_path,
        };
        Budgy {
            budget_summary: None,
            budget_shown: false,
            budget,
            statement_shown: false,
            statement: None,
            previous_summary: None,
            budget_deltas: Vec::new(),
            scroll_budget_to_bottom: false,
            current_tab: Tabs::Statement,
            config,
        }
    }

    /// The user picked a statement to import (`None` when the dialog was
    /// cancelled), and `listed` tells whether the recent list already names
    /// that path. The pick becomes the statement in use, and a path not yet
    /// listed goes to the front of the recent list.
    pub fn record_import(&mut self, picked: Option<String>, listed: bool)
        ensures
            final(self).config.statement_path == picked,
            texts(final(self).config.recents@) == (match picked {
                Some(p) => with_recent(texts(old(self).config.recents@), p@, listed),
                None => texts(old(self).config.recents@),
            }),
            no_duplicates(texts(old(self).config.recents@)) && (match picked {
                Some(p) => listed || !texts(old(self).config.recents@).contains(p@),
                None => true,
            }) ==> no_duplicates(texts(final(self).config.recents@)),
            picked is None || listed ==> texts(final(self).config.recents@) == texts(
                old(self).config.recents@,
            ),
            match picked {
                Some(p) => !listed ==> final(self).config.recents@.len()
                    == old(self).config.recents@.len() + 1 && final(self).config.recents@[0]@ == p@
                    && texts(final(self).config.recents@).subrange(
                    1,
                    final(self).config.recents@.len() as int,
                ) == texts(old(self).config.recents@),
                None => true,
            },
            final(self).config.categories == old(self).config.categories,
            final(self).budget_summary == old(self).budget_summary,
            final(self).budget_shown == old(self).budget_shown,
            final(self).budget == old(self).budget,
            final(self).statement_shown == old(self).statement_shown,
            final(self).statement == old(self).statement,
            final(self).previous_summary == old(self).previous_summary,
            final(self).budget_deltas == old(self).budget_deltas,
            final(self).scroll_budget_to_bottom == old(self).scroll_budget_to_bottom,
            final(self).current_tab == old(self).current_tab,
    {
        let ghost before = texts(self.config.recents@);
        match &picked {
            Some(p) => {
                if !listed {
                    self.config.recents.insert(0, p.clone());
                    proof {
                        let after = texts(self.config.recents@);
                        assert(after =~= seq![p@] + before);
                        assert(after.subrange(1, after.len() as int) =~= before);
                        assert(after[0] == self.config.recents@[0]@);
                        if no_duplicates(before) && !before.contains(p@) {
                            assert forall|i: int, j: int| 0 <= i < j < after.len() implies after[i]
                                != after[j] by {
                                if i == 0 {
                                    assert(before[j - 1] == after[j]);
                                }
                            }
                        }
                    }
                }
            },
            None => {},
        }
        self.config.statement_path = picked;
    }

    /// The user picked a statement to import (`None` when the dialog was
    /// cancelled). It becomes the statement in use; unless the recent list
    /// already names it as a path, it goes to the front of that list. After
    /// the import the list names the picked path, so importing it again
    /// leaves the list as it is.
    pub fn import_csv(&mut self, picked: Option<String>)
        ensures
            final(self).config.statement_path == picked,
            texts(final(self).config.recents@) == (match picked {
                Some(p) => with_recent(
                    texts(old(self).config.recents@),
                    p@,
                    listed_path(texts(old(self).config.recents@), p@),
                ),
                None => texts(old(self).config.recents@),
            }),
            picked matches Some(p) ==> listed_path(texts(final(self).config.recents@), p@),
            match picked {
                Some(p) => if listed_path(texts(old(self).config.recents@), p@) {
                    texts(final(self).config.recents@) == texts(old(self).config.recents@)
                } else {
                    final(self).config.recents@.len() == old(self).config.recents@.len() + 1
                        && final(self).config.recents@[0]@ == p@ && texts(
                        final(self).config.recents@,
                    ).subrange(1, final(self).config.recents@.len() as int) == texts(
                        old(self).config.recents@,
                    )
                },
                None => true,
            },
            no_duplicates(texts(old(self).config.recents@)) ==> no_duplicates(
                texts(final(self).config.recents@),
            ),
            final(self).config.categories == old(self).config.categories,
            final(self).budget_summary == old(self).budget_summary,
            final(self).budget_shown == old(self).budget_shown,
            final(self).budget == old(self).budget,
            final(self).statement_shown == old(self).statement_shown,
            final(self).statement == old(self).statement,
            final(self).previous_summary == old(self).previous_summary,
            final(self).budget_deltas == old(self).budget_deltas,
            final(self).scroll_budget_to_bottom == old(self).scroll_budget_to_bottom,
            final(self).current_tab == old(self).current_tab,
    {
        let listed = match &picked {
            Some(p) => lists_path(&self.config.recents, p),
            None => false,
        };
        let ghost before = texts(self.config.recents@);
        let ghost pick = picked;
        self.record_import(picked, listed);
        proof {
            if let Some(p) = pick {
                let after = texts(self.config.recents@);
                if !listed {
                    assert(same_path_as(after[0], p@));
                    if no_duplicates(before) {
                        assert(!before.contains(p@)) by {
                            if before.contains(p@) {
                                let i = choose|i: int| 0 <= i < before.len() && before[i] == p@;
                                assert(same_path_as(before[i], p@));
                            }
                        }
                    }
                }
            }
        }
    }

    /// Where the summary is exported: next to the statement in use, or
    /// wherever the user chooses when there is none.
    pub fn export_target(&self) -> (t: ExportTarget)
        ensures
            match self.config.statement_path {
                Some(p) => t matches ExportTarget::NextTo(q) && q@ == p@,
                None => t is Ask,
            },
    {
        match &self.config.statement_path {
            Some(p) => ExportTarget::NextTo(p.clone()),
            None => ExportTarget::Ask,
        }
    }

    /// The user chose the recent statement at `index`; it becomes the
    /// statement in use.
    pub fn open_recent(&mut self, index: usize)
        requires
            index < old(self).config.recents@.len(),
        ensures
            final(self).config.statement_path matches Some(p) && p@ == old(
                self,
            ).config.recents@[index as int]@,
            final(self).config.recents == old(self).config.recents,
            final(self).config.categories == old(self).config.categories,
            final(self).budget_summary == old(self).budget_summary,
            final(self).budget_shown == old(self).budget_shown,
            final(self).budget == old(self).budget,
            final(self).statement_shown == old(self).statement_shown,
            final(self).statement == old(self).statement,
            final(self).previous_summary == old(self).previous_summary,
            final(self).budget_deltas == old(self).budget_deltas,
            final(self).scroll_budget_to_bottom == old(self).scroll_budget_to_bottom,
            final(self).current_tab == old(self).current_tab,
    {
        let p = self.config.recents[index].clone();
        self.config.statement_path = Some(p);
    }

    /// The user cleared the list of recent statements.
    pub fn clear_recents(&mut self)
        ensures
            final(self).config.recents@.len() == 0,
            final(self).config.statement_path == old(self).config.statement_path,
            final(self).config.categories == old(self).config.categories,
            final(self).budget_summary == old(self).budget_summary,
            final(self).budget_shown == old(self).budget_shown,
            final(self).budget == old(self).budget,
            final(self).statement_shown == old(self).statement_shown,
            final(self).statement == old(self).statement,
            final(self).previous_summary == old(self).previous_summary,
            final(self).budget_deltas == old(self).budget_deltas,
            final(self).scroll_budget_to_bottom == old(self).scroll_budget_to_bottom,
            final(self).current_tab == old(self).current_tab,
    {
        self.config.recents.clear();
    }

    /// The user switched to another tab.
    pub fn select_tab(&mut self, tab: Tabs)
        ensures
            final(self).current_tab == tab,
            final(self).config == old(self).config,
            final(self).budget_summary == old(self).budget_summary,
            final(self).budget_shown == old(self).budget_shown,
            final(self).budget == old(self).budget,
            final(self).statement_shown == old(self).statement_shown,
            final(self).statement == old(self).statement,
            final(self).previous_summary == old(self).previous_summary,
            final(self).budget_deltas == old(self).budget_deltas,
            final(self).scroll_budget_to_bottom == old(self).scroll_budget_to_bottom,
    {
        self.current_tab = tab;
    }

    /// The user added a budget line: an empty line is appended and the
    /// editor is asked to scroll to it.
    pub fn add_budget_row(&mut self)
        ensures
            delta_lines(final(self).budget_deltas@) == delta_lines(old(self).budget_deltas@).push(
                (Seq::empty(), 0i64),
            ),
            final(self).scroll_budget_to_bottom,
            final(self).config == old(self).config,
            final(self).budget_summary == old(self).budget_summary,
            final(self).budget_shown == old(self).budget_shown,
            final(self).budget == old(self).budget,
            final(self).statement_shown == old(self).statement_shown,
            final(self).statement == old(self).statement,
            final(self).previous_summary == old(self).previous_summary,
            final(self).current_tab == old(self).current_tab,
    {
        self.budget_deltas.push((String::new(), 0));
        self.scroll_budget_to_bottom = true;
        assert(delta_lines(self.budget_deltas@) =~= delta_lines(old(self).budget_deltas@).push(
            (Seq::empty(), 0i64),
        ));
    }

    /// The budget editor is being drawn: whether it should scroll to its
    /// last line. The request is answered once.
    pub fn take_scroll_request(&mut self) -> (scroll: bool)
        ensures
            scroll == old(self).scroll_budget_to_bottom,
            !final(self).scroll_budget_to_bottom,
            final(self).config == old(self).config,
            final(self).budget_summary == old(self).budget_summary,
            final(self).budget_shown == old(self).budget_shown,
            final(self).budget == old(self).budget,
            final(self).statement_shown == old(self).statement_shown,
            final(self).statement == old(self).statement,
            final(self).previous_summary == old(self).previous_summary,
            final(self).budget_deltas == old(self).budget_deltas,
            final(self).current_tab == old(self).current_tab,
    {
        let scroll = self.scroll_budget_to_bottom;
        self.scroll_budget_to_bottom = false;
        scroll
    }

    /// The user edited the category of budget line `index`.
    pub fn set_budget_category(&mut self, index: usize, category: String)
        requires
            index < old(self).budget_deltas@.len(),
        ensures
            delta_lines(final(self).budget_deltas@) == delta_lines(old(self).budget_deltas@).update(
                index as int,
                (category@, old(self).budget_deltas@[index as int].1),
            ),
            final(self).config == old(self).config,
            final(self).budget_summary == old(self).budget_summary,
            final(self).budget_shown == old(self).budget_shown,
            final(self).budget == old(self).budget,
            final(self).statement_shown == old(self).statement_shown,
            final(self).statement == old(self).statement,
            final(self).previous_summary == old(self).previous_summary,
            final(self).scroll_budget_to_bottom == old(self).scroll_budget_to_bottom,
            final(self).current_tab == old(self).current_tab,
    {
        let amount = self.budget_deltas[index].1;
        self.budget_deltas.set(index, (category, amount));
        assert(delta_lines(self.budget_deltas@) =~= delta_lines(old(self).budget_deltas@).update(
            index as int,
            (category@, old(self).budget_deltas@[index as int].1),
        ));
    }

    /// The user edited the amount of budget line `index`.
    pub fn set_budget_amount(&mut self, index: usize, amount: i64)
        requires
            index < old(self).budget_deltas@.len(),
        ensures
            delta_lines(final(self).budget_deltas@) == delta_lines(old(self).budget_deltas@).update(
                index as int,
                (old(self).budget_deltas@[index as int].0@, amount),
            ),
            final(self).config == old(self).config,
            final(self).budget_summary == old(self).budget_summary,
            final(self).budget_shown == old(self).budget_shown,
            final(self).budget == old(self).budget,
            final(self).statement_shown == old(self).statement_shown,
            final(self).statement == old(self).statement,
            final(self).previous_summary == old(self).previous_summary,
            final(self).scroll_budget_to_bottom == old(self).scroll_budget_to_bottom,
            final(self).current_tab == old(self).current_tab,
    {
        let category = self.budget_deltas[index].0.clone();
        self.budget_deltas.set(index, (category, amount));
        assert(delta_lines(self.budget_deltas@) =~= delta_lines(old(self).budget_deltas@).update(
            index as int,
            (old(self).budget_deltas@[index as int].0@, amount),
        ));
    }

    /// The user saved the budget: the edited lines leave the editor as the
    /// two columns to store, category and amount, and the stored budget is
    /// from now on the saved one.
    pub fn save_updated_budget(&mut self) -> (columns: (Vec<String>, Vec<i64>))
        ensures
            final(self).budget_deltas@.len() == 0,
            final(self).budget matches Some(rows) && rows@.len() == old(self).budget_deltas@.len()
                && forall|i: int|
                0 <= i < rows@.len() ==> opt_text(#[trigger] rows@[i].category) == Some(
                    old(self).budget_deltas@[i].0@,
                ) && rows@[i].budget_amount == Some(old(self).budget_deltas@[i].1),
            texts(columns.0@) == delta_lines(old(self).budget_deltas@).map_values(
                |d: (Seq<char>, i64)| d.0,
            ),
            columns.1@ == delta_lines(old(self).budget_deltas@).map_values(|d: (Seq<char>, i64)| d.1),
            final(self).config == old(self).config,
            final(self).budget_summary == old(self).budget_summary,
            final(self).budget_shown == old(self).budget_shown,
            final(self).statement_shown == old(self).statement_shown,
            final(self).statement == old(self).statement,
            final(self).previous_summary == old(self).previous_summary,
            final(self).scroll_budget_to_bottom == old(self).scroll_budget_to_bottom,
            final(self).current_tab == old(self).current_tab,
    {
        let columns = drain_budget(&mut self.budget_deltas);
        self.budget = Some(budget_from_columns(&columns.0, &columns.1));
        assert(texts(columns.0@) =~= delta_lines(old(self).budget_deltas@).map_values(
            |d: (Seq<char>, i64)| d.0,
        ));
        assert(columns.1@ =~= delta_lines(old(self).budget_deltas@).map_values(
            |d: (Seq<char>, i64)| d.1,
        ));
        columns
    }

    /// One frame of the statement tab: draw the statement once it is taken
    /// for display; take it once it is read; ask for it once a path is known;
    /// otherwise invite the user to open one.
    pub fn statement_tab_step(&mut self) -> (action: StatementTabAction)
        ensures
            old(self).statement_shown ==> (action is ShowTable) && *final(self) == *old(self),
            !old(self).statement_shown && old(self).statement is Some ==> action is Collected
                && *final(self) == (Budgy { statement_shown: true, ..*old(self) }),
            !old(self).statement_shown && old(self).statement is None ==> *final(self) == *old(self) && match old(self).config.statement_path {
                Some(p) => action matches StatementTabAction::Load(q) && q@ == p@,
                None => action is ShowHint,
            },
    {
        if self.statement_shown {
            StatementTabAction::ShowTable
        } else if self.statement.is_some() {
            self.statement_shown = true;
            StatementTabAction::Collected
        } else {
            match &self.config.statement_path {
                Some(p) => StatementTabAction::Load(p.clone()),
                None => StatementTabAction::ShowHint,
            }
        }
    }

    /// The statement was read: the lines with both categories are kept.
    pub fn statement_loaded(&mut self, records: &Vec<StatementRecord>)
        ensures
            final(self).statement matches Some(rows) && statement_lines(rows@) == categorised(
                records@,
            ),
            final(self).config == old(self).config,
            final(self).budget_summary == old(self).budget_summary,
            final(self).budget_shown == old(self).budget_shown,
            final(self).budget == old(self).budget,
            final(self).statement_shown == old(self).statement_shown,
            final(self).previous_summary == old(self).previous_summary,
            final(self).budget_deltas == old(self).budget_deltas,
            final(self).scroll_budget_to_bottom == old(self).scroll_budget_to_bottom,
            final(self).current_tab == old(self).current_tab,
    {
        self.statement = Some(keep_categorised(records));
    }

    /// One frame of the budget tab: draw the editor once the budget is in
    /// it; put the stored budget into the editor once it is read; otherwise
    /// ask for it.
    pub fn budget_tab_step(&mut self) -> (action: BudgetTabAction)
        ensures
            budget_step(*old(self), *final(self), action),
    {
        if self.budget_shown {
            BudgetTabAction::ShowTable
        } else {
            match &self.budget {
                Some(rows) => {
                    let mut lines = editable_budget(rows);
                    let ghost before = self.budget_deltas@;
                    self.budget_deltas.append(&mut lines);
                    self.budget_shown = true;
                    assert(delta_lines(self.budget_deltas@) =~= delta_lines(before) + old(
                        self,
                    ).budget->0@.map_values(|r: BudgetRow| editable_line(r)));
                    BudgetTabAction::Collected
                },
                None => BudgetTabAction::LoadBudget,
            }
        }
    }

    /// The stored budget was read (`None` when there was none yet).
    pub fn budget_loaded(&mut self, budget: Option<Vec<BudgetRow>>)
        ensures
            final(self).budget == budget,
            final(self).config == old(self).config,
            final(self).budget_summary == old(self).budget_summary,
            final(self).budget_shown == old(self).budget_shown,
            final(self).statement_shown == old(self).statement_shown,
            final(self).statement == old(self).statement,
            final(self).previous_summary == old(self).previous_summary,
            final(self).budget_deltas == old(self).budget_deltas,
            final(self).scroll_budget_to_bottom == old(self).scroll_budget_to_bottom,
            final(self).current_tab == old(self).current_tab,
    {
        self.budget = budget;
    }

    /// One frame of the summary tab: draw the summary once there is one;
    /// with a statement, a budget and a previous summary, compute it;
    /// with a statement and a budget, ask for the previous summary; report
    /// what is missing otherwise.
    pub fn summary_tab_step(&mut self) -> (action: SummaryTabAction)
        ensures
            old(self).budget_summary is Some ==> (action is ShowTable) && *final(self) == *old(self),
            old(self).budget_summary is None && old(self).statement is None ==> action is MissingStatement
                && *final(self) == *old(self),
            old(self).budget_summary is None && old(self).statement is Some && old(self).budget is None
                ==> (action is NoBudget) && *final(self) == *old(self),
            old(self).budget_summary is None && old(self).statement is Some && old(self).budget is Some
                && old(self).previous_summary is None ==> (action is LoadPreviousSummary) && *final(self)
                == *old(self),
            old(self).budget_summary is None && old(self).statement is Some && old(self).budget is Some
                && old(self).previous_summary is Some ==> {
                let st = old(self).statement->0@;
                let bu = old(self).budget->0@;
                let pr = old(self).previous_summary->0@;
                &&& action is Computed
                &&& (final(self).budget_summary is Some <==> summary_fits(st, bu, pr))
                &&& (final(self).budget_summary matches Some(rows) ==> summary_lines(rows@)
                    == period_summary(st, bu, pr))
                &&& final(self).config == old(self).config
                &&& final(self).budget_shown == old(self).budget_shown
                &&& final(self).budget == old(self).budget
                &&& final(self).statement_shown == old(self).statement_shown
                &&& final(self).statement == old(self).statement
                &&& final(self).previous_summary == old(self).previous_summary
                &&& final(self).budget_deltas == old(self).budget_deltas
                &&& final(self).scroll_budget_to_bottom == old(self).scroll_budget_to_bottom
                &&& final(self).current_tab == old(self).current_tab
            },
    {
        if self.budget_summary.is_some() {
            return SummaryTabAction::ShowTable;
        }
        match (&self.statement, &self.budget, &self.previous_summary) {
            (Some(st), Some(bu), Some(pr)) => {
                let result = summarize(st, bu, pr);
                self.budget_summary = match result {
                    Ok(rows) => Some(rows),
                    Err(_) => None,
                };
                SummaryTabAction::Computed
            },
            (Some(_), Some(_), None) => SummaryTabAction::LoadPreviousSummary,
            (Some(_), None, _) => SummaryTabAction::NoBudget,
            (None, _, _) => SummaryTabAction::MissingStatement,
        }
    }

    /// The previous summary was read.
    pub fn previous_summary_loaded(&mut self, previous: Vec<SummaryRow>)
        ensures
            final(self).previous_summary == Some(previous),
            final(self).config == old(self).config,
            final(self).budget_summary == old(self).budget_summary,
            final(self).budget_shown == old(self).budget_shown,
            final(self).budget == old(self).budget,
            final(self).statement_shown == old(self).statement_shown,
            final(self).statement == old(self).statement,
            final(self).budget_deltas == old(self).budget_deltas,
            final(self).scroll_budget_to_bottom == old(self).scroll_budget_to_bottom,
            final(self).current_tab == old(self).current_tab,
    {
        self.previous_summary = Some(previous);
    }
}

} // verus!
