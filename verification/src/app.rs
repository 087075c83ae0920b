use vstd::prelude::*;
use crate::config::{Config, ConfigView, services_count, lemma_services_count_positive};
use crate::patroni::patroni::{NodeStatus, NodeStatusView, node_views};
use crate::services::actions::{Action, all_actions, destructive, targets_node};

verus! {

/// The tabs of the interface.
#[derive(Clone, Copy, Debug, PartialEq, Eq, Structural)]
pub enum Tab {
    Overview,
    Cluster,
    Logs,
    Actions,
}

/// A key press, as the interface tells them apart.
#[derive(Clone, Copy, Debug, PartialEq, Eq, Structural)]
pub enum Key {
    Char(char),
    Up,
    Down,
    Left,
    Right,
    Enter,
    Esc,
    Other,
}

/// What the caller is to do after a key press.
#[derive(Clone, Copy, Debug, PartialEq, Eq, Structural)]
pub enum Step {
    /// Nothing: draw again and wait for the next key.
    Continue,
    /// Leave the interface.
    Quit,
    /// Read the cluster and hand its members to `App::choose_next_target`.
    ChooseNextTarget,
    /// Read the cluster and hand its members to `App::choose_first_target`.
    ChooseFirstTarget,
    /// Run the action and hand its outcome to `App::record_outcome`.
    Perform(Action),
}

/// The state of the interface.
pub struct App {
    pub current_tab: Tab,
    pub log_selected: usize,
    pub log_scroll: u16,
    pub log_focus_right: bool,
    pub config: Config,
    pub action_selected: usize,
    pub action_confirmation: bool,
    pub action_confirmation_yes: bool,
    pub action_target_node: String,
    pub action_error: Option<String>,
}

/// The abstract value of an `App`.
pub struct AppView {
    pub tab: Tab,
    pub log_selected: usize,
    pub log_scroll: u16,
    pub log_focus_right: bool,
    pub config: ConfigView,
    pub action_selected: usize,
    pub confirmation: bool,
    pub confirmation_yes: bool,
    pub target: Seq<char>,
    pub error: Option<Seq<char>>,
}

impl View for App {
    type V = AppView;

    open spec fn view(&self) -> AppView {
        AppView {
            tab: self.current_tab,
            log_selected: self.log_selected,
            log_scroll: self.log_scroll,
            log_focus_right: self.log_focus_right,
            config: self.config@,
            action_selected: self.action_selected,
            confirmation: self.action_confirmation,
            confirmation_yes: self.action_confirmation_yes,
            target: self.action_target_node@,
            error: match self.action_error {
                Some(e) => Some(e@),
                None => None,
            },
        }
    }
}

/// The number of actions in the actions list.
pub open spec fn actions_count() -> nat {
    all_actions().len()
}

/// The key moves down a list (`Down` or `j`).
pub open spec fn is_down(k: Key) -> bool {
    k == Key::Down || k == Key::Char('j')
}

/// The key moves up a list (`Up` or `k`).
pub open spec fn is_up(k: Key) -> bool {
    k == Key::Up || k == Key::Char('k')
}

/// The key scrolls the log view down.
pub open spec fn scrolls_down(s: AppView, k: Key) -> bool {
    is_down(k) && s.tab == Tab::Logs && s.log_focus_right
}

/// The selections point into their lists: the selected service is one of
/// those configured (a list that fits in memory) and the selected action
/// one of the actions.
pub open spec fn well_formed(s: AppView) -> bool {
    &&& services_count(s.config) <= usize::MAX
    &&& s.log_selected < services_count(s.config)
    &&& s.action_selected < actions_count()
}

/// The state after `Enter` on the actions tab: a confirmation dialog closes;
/// otherwise a destructive action opens one, with `No` chosen.
pub open spec fn after_enter(s: AppView) -> AppView {
    if s.action_selected < actions_count() {
        if s.confirmation {
            AppView { confirmation: false, ..s }
        } else if destructive(all_actions()[s.action_selected as int]) {
            AppView { confirmation: true, confirmation_yes: false, ..s }
        } else {
            s
        }
    } else {
        s
    }
}

/// The state after a key press.
pub open spec fn after_key(s: AppView, k: Key) -> AppView {
    if k == Key::Char('q') {
        s
    } else if k == Key::Char('1') {
        AppView { tab: Tab::Overview, ..s }
    } else if k == Key::Char('2') {
        AppView { tab: Tab::Cluster, ..s }
    } else if k == Key::Char('3') {
        AppView { tab: Tab::Logs, ..s }
    } else if k == Key::Char('4') {
        AppView { tab: Tab::Actions, ..s }
    } else if k == Key::Right && s.tab == Tab::Logs {
        AppView { log_focus_right: true, ..s }
    } else if k == Key::Left && s.tab == Tab::Logs {
        AppView { log_focus_right: false, ..s }
    } else if is_down(k) && s.tab == Tab::Logs && !s.log_focus_right {
        if s.log_selected + 1 < services_count(s.config) {
            AppView { log_selected: (s.log_selected + 1) as usize, log_scroll: 0, ..s }
        } else {
            s
        }
    } else if is_up(k) && s.tab == Tab::Logs && !s.log_focus_right {
        if s.log_selected > 0 {
            AppView { log_selected: (s.log_selected - 1) as usize, log_scroll: 0, ..s }
        } else {
            s
        }
    } else if is_down(k) && s.tab == Tab::Logs {
        AppView { log_scroll: (s.log_scroll + 1) as u16, ..s }
    } else if is_up(k) && s.tab == Tab::Logs {
        if s.log_scroll > 0 {
            AppView { log_scroll: (s.log_scroll - 1) as u16, ..s }
        } else {
            s
        }
    } else if is_down(k) && s.tab == Tab::Actions {
        if !s.confirmation && s.action_selected + 1 < actions_count() {
            AppView { action_selected: (s.action_selected + 1) as usize, ..s }
        } else {
            s
        }
    } else if is_up(k) && s.tab == Tab::Actions {
        if !s.confirmation && s.action_selected > 0 {
            AppView { action_selected: (s.action_selected - 1) as usize, ..s }
        } else {
            s
        }
    } else if k == Key::Enter && s.tab == Tab::Actions {
        after_enter(s)
    } else if (k == Key::Left || k == Key::Right) && s.tab == Tab::Actions && s.confirmation {
        AppView { confirmation_yes: !s.confirmation_yes, ..s }
    } else if k == Key::Esc && s.tab == Tab::Actions {
        if s.error is Some {
            AppView { error: None, ..s }
        } else if s.confirmation {
            AppView { confirmation: false, ..s }
        } else {
            s
        }
    } else {
        s
    }
}

/// What the caller is to do after a key press.
pub open spec fn key_step(s: AppView, k: Key) -> Step {
    if k == Key::Char('q') {
        Step::Quit
    } else if k == Key::Char('n') && s.tab == Tab::Actions && !s.confirmation
        && s.action_selected < actions_count() {
        Step::ChooseNextTarget
    } else if k == Key::Enter && s.tab == Tab::Actions && s.action_selected < actions_count() {
        let a = all_actions()[s.action_selected as int];
        if s.confirmation {
            if s.confirmation_yes {
                Step::Perform(a)
            } else {
                Step::Continue
            }
        } else if destructive(a) {
            if targets_node(a) && s.target.len() == 0 {
                Step::ChooseFirstTarget
            } else {
                Step::Continue
            }
        } else {
            Step::Perform(a)
        }
    } else {
        Step::Continue
    }
}

/// The names of the members that are not the leader, in order.
pub open spec fn replica_names(ms: Seq<NodeStatusView>) -> Seq<Seq<char>>
    decreases ms.len(),
{
    if ms.len() == 0 {
        Seq::empty()
    } else {
        let r = replica_names(ms.drop_last());
        if ms.last().role != "leader"@ {
            r.push(ms.last().name)
        } else {
            r
        }
    }
}

/// The names of the members, in order.
pub open spec fn member_names(ms: Seq<NodeStatusView>) -> Seq<Seq<char>> {
    ms.map_values(|m: NodeStatusView| m.name)
}

/// The nodes an action can be aimed at: the replicas for a switchover,
/// every member for a restart or a reinitialization, none otherwise.
pub open spec fn candidate_names(a: Action, ms: Seq<NodeStatusView>) -> Seq<Seq<char>> {
    if a == Action::Switchover {
        replica_names(ms)
    } else if targets_node(a) {
        member_names(ms)
    } else {
        Seq::empty()
    }
}

/// `i` is the first place of `x` in `s`.
pub open spec fn is_first_index(s: Seq<Seq<char>>, x: Seq<char>, i: int) -> bool {
    &&& 0 <= i < s.len()
    &&& s[i] == x
    &&& forall|j: int| 0 <= j < i ==> #[trigger] s[j] != x
}

/// The target after `current` among `cands`: unchanged where there is no
/// candidate; the first candidate where there was no target or the target
/// is not a candidate; else the candidate after the target's first place,
/// wrapping around.
pub open spec fn next_target(cands: Seq<Seq<char>>, current: Seq<char>) -> Seq<char> {
    if cands.len() == 0 {
        current
    } else if current.len() == 0 {
        cands[0]
    } else if exists|i: int| is_first_index(cands, current, i) {
        let i = choose|i: int| is_first_index(cands, current, i);
        cands[(i + 1) % (cands.len() as int)]
    } else {
        cands[0]
    }
}

/// The first place of `x` in `s` is unique.
pub proof fn lemma_first_index_unique(s: Seq<Seq<char>>, x: Seq<char>, i: int, j: int)
    requires
        is_first_index(s, x, i),
        is_first_index(s, x, j),
    ensures
        i == j,
{
    if i < j {
        assert(s[i] != x);
    } else if j < i {
        assert(s[j] != x);
    }
}

fn replica_names_exec(ms: &Vec<NodeStatus>) -> (r: Vec<String>)
    ensures
        crate::text::views(r@) == replica_names(node_views(ms@)),
{
    let leader = String::from_str("leader");
    let ghost mv = node_views(ms@);
    let mut out: Vec<String> = Vec::new();
    let mut i: usize = 0;
    assert(mv.take(0) =~= Seq::<NodeStatusView>::empty());
    assert(crate::text::views(out@) =~= Seq::<Seq<char>>::empty());
    while i < ms.len()
        invariant
            mv == node_views(ms@),
            leader@ == "leader"@,
            i <= ms@.len(),
            crate::text::views(out@) == replica_names(mv.take(i as int)),
        decreases ms@.len() - i,
    {
        assert(mv.take(i + 1).drop_last() =~= mv.take(i as int));
        assert(mv.take(i + 1).last() == ms@[i as int]@);
        if !(ms[i].role == leader) {
            let ghost ov = crate::text::views(out@);
            out.push(ms[i].name.clone());
            assert(crate::text::views(out@) =~= ov.push(ms@[i as int].name@));
        }
        i = i + 1;
    }
    assert(mv.take(ms@.len() as int) =~= mv);
    out
}

fn member_names_exec(ms: &Vec<NodeStatus>) -> (r: Vec<String>)
    ensures
        crate::text::views(r@) == member_names(node_views(ms@)),
{
    let ghost mv = node_views(ms@);
    let mut out: Vec<String> = Vec::new();
    let mut i: usize = 0;
    while i < ms.len()
        invariant
            mv == node_views(ms@),
            i <= ms@.len(),
            crate::text::views(out@) =~= member_names(mv).take(i as int),
        decreases ms@.len() - i,
    {
        let ghost ov = crate::text::views(out@);
        out.push(ms[i].name.clone());
        assert(crate::text::views(out@) =~= ov.push(ms@[i as int].name@));
        assert(member_names(mv).take(i + 1) =~= member_names(mv).take(i as int).push(
            ms@[i as int].name@,
        ));
        i = i + 1;
    }
    out
}

fn candidate_names_exec(a: Action, ms: &Vec<NodeStatus>) -> (r: Vec<String>)
    ensures
        crate::text::views(r@) == candidate_names(a, node_views(ms@)),
{
    match a {
        Action::Switchover => replica_names_exec(ms),
        Action::Restart | Action::Reinitialize => member_names_exec(ms),
        _ => {
            let v: Vec<String> = Vec::new();
            assert(crate::text::views(v@) =~= Seq::<Seq<char>>::empty());
            v
        },
    }
}

fn next_target_exec(cands: &Vec<String>, current: &String) -> (r: String)
    ensures
        r@ == next_target(crate::text::views(cands@), current@),
{
    let ghost cv = crate::text::views(cands@);
    if cands.len() == 0 {
        return current.clone();
    }
    if current.as_str().unicode_len() == 0 {
        assert(cv[0] == cands@[0]@);
        return cands[0].clone();
    }
    let mut i: usize = 0;
    while i < cands.len()
        invariant
            cv == crate::text::views(cands@),
            i <= cands@.len(),
            current@.len() > 0,
            forall|j: int| 0 <= j < i ==> #[trigger] cv[j] != current@,
        decreases cands@.len() - i,
    {
        assert(cv[i as int] == cands@[i as int]@);
        if cands[i] == *current {
            assert(is_first_index(cv, current@, i as int));
            proof {
                let c = choose|c: int| is_first_index(cv, current@, c);
                lemma_first_index_unique(cv, current@, c, i as int);
            }
            let next = (i + 1) % cands.len();
            assert(cv[next as int] == cands@[next as int]@);
            return cands[next].clone();
        }
        i = i + 1;
    }
    assert(!exists|c: int| is_first_index(cv, current@, c)) by {
        if exists|c: int| is_first_index(cv, current@, c) {
            let c = choose|c: int| is_first_index(cv, current@, c);
            assert(cv[c] != current@);
        }
    }
    assert(cv[0] == cands@[0]@);
    cands[0].clone()
}

/// Every key press keeps the selections pointing into their lists.
pub proof fn law_keys_keep_well_formed(s: AppView, k: Key)
    requires
        well_formed(s),
    ensures
        well_formed(after_key(s, k)),
{
}

/// `q` leaves the state as it is and ends the session.
pub proof fn law_quit_changes_nothing(s: AppView)
    ensures
        after_key(s, Key::Char('q')) == s,
        key_step(s, Key::Char('q')) == Step::Quit,
{
}

/// The keys `1` to `4` select the overview, cluster, logs and actions tabs,
/// from any state, and change nothing else.
pub proof fn law_digits_select_tabs(s: AppView)
    ensures
        after_key(s, Key::Char('1')) == (AppView { tab: Tab::Overview, ..s }),
        after_key(s, Key::Char('2')) == (AppView { tab: Tab::Cluster, ..s }),
        after_key(s, Key::Char('3')) == (AppView { tab: Tab::Logs, ..s }),
        after_key(s, Key::Char('4')) == (AppView { tab: Tab::Actions, ..s }),
        key_step(s, Key::Char('1')) == Step::Continue,
        key_step(s, Key::Char('4')) == Step::Continue,
{
}

/// In a confirmation dialog, `Left` and `Right` each switch between `Yes`
/// and `No`, so two of them restore the choice.
pub proof fn law_confirmation_toggle_twice(s: AppView, k1: Key, k2: Key)
    requires
        s.tab == Tab::Actions,
        s.confirmation,
        k1 == Key::Left || k1 == Key::Right,
        k2 == Key::Left || k2 == Key::Right,
    ensures
        after_key(s, k1).confirmation_yes == !s.confirmation_yes,
        after_key(after_key(s, k1), k2) == s,
{
}

/// On the actions tab, `Esc` first clears an error and keeps an open
/// dialog; a second `Esc` then closes the dialog.
pub proof fn law_esc_clears_error_then_dialog(s: AppView)
    requires
        s.tab == Tab::Actions,
        s.error is Some,
        s.confirmation,
    ensures
        after_key(s, Key::Esc) == (AppView { error: None, ..s }),
        after_key(after_key(s, Key::Esc), Key::Esc) == (AppView {
            error: None,
            confirmation: false,
            ..s
        }),
{
}

/// In the service list, moving down and back up returns to the same
/// service (with the log scrolled to the top), where there is a service
/// below.
pub proof fn law_logs_down_then_up(s: AppView, down: Key, up: Key)
    requires
        s.tab == Tab::Logs,
        !s.log_focus_right,
        well_formed(s),
        s.log_selected + 1 < services_count(s.config),
        is_down(down),
        is_up(up),
    ensures
        after_key(after_key(s, down), up) == (AppView { log_scroll: 0, ..s }),
{
}

/// Confirming with `Yes` performs the selected action and closes the
/// dialog; resuming the cluster, the one action that is not destructive, is
/// performed at once without a dialog.
pub proof fn law_confirmed_actions_run(s: AppView)
    requires
        s.tab == Tab::Actions,
        s.action_selected < actions_count(),
    ensures
        s.confirmation && s.confirmation_yes ==> key_step(s, Key::Enter) == Step::Perform(
            all_actions()[s.action_selected as int],
        ) && !after_key(s, Key::Enter).confirmation,
        !s.confirmation && all_actions()[s.action_selected as int] == Action::ResumeCluster
            ==> key_step(s, Key::Enter) == Step::Perform(Action::ResumeCluster) && after_key(
            s,
            Key::Enter,
        ) == s,
        !s.confirmation && destructive(all_actions()[s.action_selected as int]) ==> after_key(
            s,
            Key::Enter,
        ).confirmation && !after_key(s, Key::Enter).confirmation_yes && !(key_step(
            s,
            Key::Enter,
        ) is Perform),
{
}

/// On the logs tab with the service list focused, a Down or `j` that moves
/// to the next service selects it and shows its log from the top: the
/// scroll offset becomes 0, whatever it was. Nothing else changes.
pub proof fn law_down_in_service_list_resets_scroll(s: AppView, k: Key)
    requires
        well_formed(s),
        s.tab == Tab::Logs,
        !s.log_focus_right,
        s.log_selected + 1 < services_count(s.config),
        k == Key::Down || k == Key::Char('j'),
    ensures
        after_key(s, k).log_selected == s.log_selected + 1,
        after_key(s, k).log_scroll == 0,
        after_key(s, k).tab == s.tab,
        after_key(s, k).config == s.config,
        key_step(s, k) == Step::Continue,
{
}

proof fn lemma_all_leaders_no_replicas(ms: Seq<NodeStatusView>)
    requires
        forall|j: int| 0 <= j < ms.len() ==> #[trigger] ms[j].role == "leader"@,
    ensures
        replica_names(ms).len() == 0,
    decreases ms.len(),
{
    if ms.len() > 0 {
        lemma_all_leaders_no_replicas(ms.drop_last());
    }
}

/// The switchover candidates are exactly the members whose role is not
/// `leader` (whatever else the role reads), by name, in member order.
pub proof fn law_switchover_candidates(ms: Seq<NodeStatusView>)
    ensures
        candidate_names(Action::Switchover, ms) == ms.filter(
            |m: NodeStatusView| m.role != "leader"@,
        ).map_values(|m: NodeStatusView| m.name),
    decreases ms.len(),
{
    let pred = |m: NodeStatusView| m.role != "leader"@;
    if ms.len() == 0 {
        reveal_with_fuel(Seq::<NodeStatusView>::filter, 1);
        assert(ms.filter(pred) =~= Seq::<NodeStatusView>::empty());
        assert(candidate_names(Action::Switchover, ms) =~= ms.filter(pred).map_values(
            |m: NodeStatusView| m.name,
        ));
    } else {
        let d = ms.drop_last();
        law_switchover_candidates(d);
        assert(ms =~= d.push(ms.last()));
        d.lemma_filter_push(ms.last(), pred);
        assert(candidate_names(Action::Switchover, ms) =~= ms.filter(pred).map_values(
            |m: NodeStatusView| m.name,
        ));
    }
}

/// With no target yet, the first switchover target (as `n` or `Enter`
/// chooses it) is the first member whose role is not `leader`, whatever its
/// role reads.
pub proof fn law_first_switchover_target(ms: Seq<NodeStatusView>, i: int)
    requires
        0 <= i < ms.len(),
        ms[i].role != "leader"@,
        forall|j: int| 0 <= j < i ==> #[trigger] ms[j].role == "leader"@,
    ensures
        candidate_names(Action::Switchover, ms).len() > 0,
        candidate_names(Action::Switchover, ms)[0] == ms[i].name,
        next_target(candidate_names(Action::Switchover, ms), Seq::empty()) == ms[i].name,
    decreases ms.len(),
{
    let d = ms.drop_last();
    if i < ms.len() - 1 {
        law_first_switchover_target(d, i);
    } else {
        lemma_all_leaders_no_replicas(d);
    }
}

/// The target after `current` is one of the candidates, where there are
/// any.
pub proof fn law_next_target_is_candidate(cands: Seq<Seq<char>>, current: Seq<char>)
    requires
        cands.len() > 0,
    ensures
        cands.contains(next_target(cands, current)),
{
    if current.len() > 0 && exists|i: int| is_first_index(cands, current, i) {
        let i = choose|i: int| is_first_index(cands, current, i);
        let j = (i + 1) % (cands.len() as int);
        assert(cands[j] == next_target(cands, current));
    } else {
        assert(cands[0] == next_target(cands, current));
    }
}

/// The target after `n` presses of `n`, starting from `current`.
pub open spec fn target_after(cands: Seq<Seq<char>>, current: Seq<char>, n: nat) -> Seq<char>
    decreases n,
{
    if n == 0 {
        current
    } else {
        next_target(cands, target_after(cands, current, (n - 1) as nat))
    }
}

/// Among distinct candidates, choosing the next target walks round them:
/// from the candidate at `i`, `n` steps reach the one at `(i + n) % len`,
/// so as many steps as there are candidates come back to the start.
pub proof fn law_targets_cycle(cands: Seq<Seq<char>>, i: int, n: nat)
    requires
        0 <= i < cands.len(),
        forall|a: int, b: int|
            0 <= a < cands.len() && 0 <= b < cands.len() && a != b ==> #[trigger] cands[a]
                != #[trigger] cands[b],
        forall|a: int| 0 <= a < cands.len() ==> #[trigger] cands[a].len() > 0,
    ensures
        target_after(cands, cands[i], n) == cands[(i + n) % (cands.len() as int)],
        target_after(cands, cands[i], cands.len()) == cands[i],
    decreases n,
{
    lemma_targets_walk(cands, i, n);
    lemma_targets_cycle_full(cands, i);
}

proof fn lemma_targets_cycle_full(cands: Seq<Seq<char>>, i: int)
    requires
        0 <= i < cands.len(),
        forall|a: int, b: int|
            0 <= a < cands.len() && 0 <= b < cands.len() && a != b ==> #[trigger] cands[a]
                != #[trigger] cands[b],
        forall|a: int| 0 <= a < cands.len() ==> #[trigger] cands[a].len() > 0,
    ensures
        target_after(cands, cands[i], cands.len()) == cands[i],
{
    lemma_targets_walk(cands, i, cands.len());
    assert((i + cands.len()) % (cands.len() as int) == i) by (nonlinear_arith)
        requires
            0 <= i < cands.len(),
    ;
}

proof fn lemma_targets_walk(cands: Seq<Seq<char>>, i: int, n: nat)
    requires
        0 <= i < cands.len(),
        forall|a: int, b: int|
            0 <= a < cands.len() && 0 <= b < cands.len() && a != b ==> #[trigger] cands[a]
                != #[trigger] cands[b],
        forall|a: int| 0 <= a < cands.len() ==> #[trigger] cands[a].len() > 0,
    ensures
        target_after(cands, cands[i], n) == cands[(i + n) % (cands.len() as int)],
    decreases n,
{
    let len = cands.len() as int;
    if n == 0 {
        assert(i % len == i) by (nonlinear_arith)
            requires
                0 <= i < len,
        ;
    } else {
        lemma_targets_walk(cands, i, (n - 1) as nat);
        let j = (i + n - 1) % len;
        assert(0 <= j < len) by (nonlinear_arith)
            requires
                j == (i + n - 1) % len,
                len > 0,
                i + n - 1 >= 0,
        ;
        let cur = cands[j];
        assert(is_first_index(cands, cur, j));
        let c = choose|c: int| is_first_index(cands, cur, c);
        lemma_first_index_unique(cands, cur, c, j);
        assert((j + 1) % len == (i + n) % len) by (nonlinear_arith)
            requires
                j == (i + n - 1) % len,
                len > 0,
        ;
    }
}

impl App {
    /// The state at start: the overview tab, the first service and action
    /// selected, no dialog, no target, no error.
    pub fn new(config: Config) -> (app: App)
        ensures
            app@ == (AppView {
                tab: Tab::Overview,
                log_selected: 0,
                log_scroll: 0,
                log_focus_right: false,
                config: config@,
                action_selected: 0,
                confirmation: false,
                confirmation_yes: false,
                target: Seq::empty(),
                error: None,
            }),
            well_formed(app@),
    {
        proof {
            lemma_services_count_positive(config@);
        }
        let listed = config.services_list();
        let count = listed.len();
        assert(services_count(config@) == count);
        App {
            current_tab: Tab::Overview,
            log_selected: 0,
            log_scroll: 0,
            log_focus_right: false,
            config,
            action_selected: 0,
            action_confirmation: false,
            action_confirmation_yes: false,
            action_target_node: String::new(),
            action_error: None,
        }
    }

    /// Whether `key` would scroll the log view past the largest offset, the
    /// one press that `on_key` does not take.
    pub fn scroll_would_overflow(&self, key: Key) -> (r: bool)
        ensures
            r == (scrolls_down(self@, key) && self.log_scroll == u16::MAX),
    {
        (key == Key::Down || key == Key::Char('j')) && self.current_tab == Tab::Logs
            && self.log_focus_right && self.log_scroll == u16::MAX
    }

    /// Handles one key press: updates the state as `after_key` says and
    /// tells the caller what to do next, as `key_step` says.
    pub fn on_key(&mut self, key: Key) -> (step: Step)
        requires
            scrolls_down(old(self)@, key) ==> old(self).log_scroll < u16::MAX,
        ensures
            final(self)@ == after_key(old(self)@, key),
            step == key_step(old(self)@, key),
    {
        let down = key == Key::Down || key == Key::Char('j');
        let up = key == Key::Up || key == Key::Char('k');
        let logs = self.current_tab == Tab::Logs;
        let actions = self.current_tab == Tab::Actions;
        if key == Key::Char('q') {
            Step::Quit
        } else if key == Key::Char('1') {
            self.current_tab = Tab::Overview;
            Step::Continue
        } else if key == Key::Char('2') {
            self.current_tab = Tab::Cluster;
            Step::Continue
        } else if key == Key::Char('3') {
            self.current_tab = Tab::Logs;
            Step::Continue
        } else if key == Key::Char('4') {
            self.current_tab = Tab::Actions;
            Step::Continue
        } else if key == Key::Right && logs {
            self.log_focus_right = true;
            Step::Continue
        } else if key == Key::Left && logs {
            self.log_focus_right = false;
            Step::Continue
        } else if down && logs && !self.log_focus_right {
            let services_len = self.config.services_list().len();
            if self.log_selected < services_len - 1 {
                self.log_selected = self.log_selected + 1;
                self.log_scroll = 0;
            }
            Step::Continue
        } else if up && logs && !self.log_focus_right {
            if self.log_selected > 0 {
                self.log_selected = self.log_selected - 1;
                self.log_scroll = 0;
            }
            Step::Continue
        } else if down && logs {
            self.log_scroll = self.log_scroll + 1;
            Step::Continue
        } else if up && logs {
            if self.log_scroll > 0 {
                self.log_scroll = self.log_scroll - 1;
            }
            Step::Continue
        } else if down && actions {
            if !self.action_confirmation {
                let actions_len = Action::all().len();
                if self.action_selected < actions_len - 1 {
                    self.action_selected = self.action_selected + 1;
                }
            }
            Step::Continue
        } else if up && actions {
            if !self.action_confirmation && self.action_selected > 0 {
                self.action_selected = self.action_selected - 1;
            }
            Step::Continue
        } else if key == Key::Char('n') && actions {
            if !self.action_confirmation && self.action_selected < Action::all().len() {
                Step::ChooseNextTarget
            } else {
                Step::Continue
            }
        } else if key == Key::Enter && actions {
            let all = Action::all();
            if self.action_selected < all.len() {
                let action = all[self.action_selected];
                if self.action_confirmation {
                    self.action_confirmation = false;
                    if self.action_confirmation_yes {
                        Step::Perform(action)
                    } else {
                        Step::Continue
                    }
                } else if action.is_destructive() {
                    self.action_confirmation = true;
                    self.action_confirmation_yes = false;
                    let node_specific = match action {
                        Action::Switchover | Action::Restart | Action::Reinitialize => true,
                        _ => false,
                    };
                    if node_specific && self.action_target_node.as_str().unicode_len() == 0 {
                        Step::ChooseFirstTarget
                    } else {
                        Step::Continue
                    }
                } else {
                    Step::Perform(action)
                }
            } else {
                Step::Continue
            }
        } else if (key == Key::Left || key == Key::Right) && actions && self.action_confirmation {
            self.action_confirmation_yes = !self.action_confirmation_yes;
            Step::Continue
        } else if key == Key::Esc && actions {
            if self.action_error.is_some() {
                self.action_error = None;
            } else if self.action_confirmation {
                self.action_confirmation = false;
            }
            Step::Continue
        } else {
            Step::Continue
        }
    }

    /// Aims the selected node-specific action at the next candidate among
    /// the members (see `next_target`); nothing else changes.
    pub fn choose_next_target(&mut self, members: &Vec<NodeStatus>)
        ensures
            final(self)@ == (AppView {
                target: if old(self).action_selected < actions_count() {
                    next_target(
                        candidate_names(
                            all_actions()[old(self).action_selected as int],
                            node_views(members@),
                        ),
                        old(self).action_target_node@,
                    )
                } else {
                    old(self).action_target_node@
                },
                ..old(self)@
            }),
    {
        let all = Action::all();
        if self.action_selected < all.len() {
            let cands = candidate_names_exec(all[self.action_selected], members);
            self.action_target_node = next_target_exec(&cands, &self.action_target_node);
        }
    }

    /// Aims the selected node-specific action, where it has no target yet,
    /// at its first candidate among the members; nothing else changes.
    pub fn choose_first_target(&mut self, members: &Vec<NodeStatus>)
        ensures
            final(self)@ == (AppView {
                target: if old(self).action_selected < actions_count() && old(
                    self,
                ).action_target_node@.len() == 0 && candidate_names(
                    all_actions()[old(self).action_selected as int],
                    node_views(members@),
                ).len() > 0 {
                    candidate_names(
                        all_actions()[old(self).action_selected as int],
                        node_views(members@),
                    )[0]
                } else {
                    old(self).action_target_node@
                },
                ..old(self)@
            }),
    {
        let all = Action::all();
        if self.action_selected < all.len() && self.action_target_node.as_str().unicode_len() == 0 {
            let cands = candidate_names_exec(all[self.action_selected], members);
            if cands.len() > 0 {
                assert(crate::text::views(cands@)[0] == cands@[0]@);
                self.action_target_node = cands[0].clone();
            }
        }
    }

    /// Records what a performed action came to: its error message, where it
    /// failed; nothing else changes.
    pub fn record_outcome(&mut self, outcome: Result<(), String>)
        ensures
            final(self)@ == (AppView {
                error: match outcome {
                    Err(e) => Some(e@),
                    Ok(_) => old(self)@.error,
                },
                ..old(self)@
            }),
    {
        match outcome {
            Err(e) => {
                self.action_error = Some(e);
            },
            Ok(_) => {},
        }
    }
}

} // verus!
