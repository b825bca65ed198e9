//! The traversal engine's decisions: which entries are visible under a
//! configuration, and what each walk event leads to.

use crate::config::Config;
use crate::config::ConfigView;
use crate::config::EntryType;
use crate::config::pattern_views;
use crate::config::string_views;
use crate::pattern::pattern_found_in;
use vstd::prelude::*;

verus! {

/// A kind is visible when no type filter is present, or when the filter
/// contains it.
pub open spec fn type_visible(filter: Option<Seq<EntryType>>, kind: EntryType) -> bool {
    match filter {
        None => true,
        Some(kinds) => kinds.contains(kind),
    }
}

/// Whether at least one of the pattern texts matches somewhere in `name`.
pub open spec fn any_pattern_found(pats: Seq<Seq<char>>, name: Seq<char>) -> bool {
    exists|i: int| 0 <= i < pats.len() && pattern_found_in(pats[i], name)
}

/// A base name is visible when no name filter is present, or when at least
/// one pattern of the filter matches somewhere in it.
pub open spec fn name_visible(filter: Option<Seq<Seq<char>>>, name: Seq<char>) -> bool {
    match filter {
        None => true,
        Some(pats) => any_pattern_found(pats, name),
    }
}

/// An entry is visible when both its kind and its base name are.
pub open spec fn entry_visible(c: ConfigView, kind: EntryType, name: Seq<char>) -> bool {
    type_visible(c.entry_types, kind) && name_visible(c.names, name)
}

/// One event met while walking a root: either the entry could not be
/// resolved (recoverable), or its metadata could not be fetched (fatal for
/// the whole run), or it was classified as an entry of some kind.
pub enum EntryEvent {
    ResolutionFailure { description: String },
    MetadataFailure { description: String },
    Resolved { kind: EntryType, base_name: String, path: String },
}

/// The mathematical content of an [`EntryEvent`].
pub enum EventView {
    ResolutionFailure { description: Seq<char> },
    MetadataFailure { description: Seq<char> },
    Resolved { kind: EntryType, base_name: Seq<char>, path: Seq<char> },
}

impl View for EntryEvent {
    type V = EventView;

    open spec fn view(&self) -> EventView {
        match self {
            EntryEvent::ResolutionFailure { description } => EventView::ResolutionFailure {
                description: description@,
            },
            EntryEvent::MetadataFailure { description } => EventView::MetadataFailure {
                description: description@,
            },
            EntryEvent::Resolved { kind, base_name, path } => EventView::Resolved {
                kind: *kind,
                base_name: base_name@,
                path: path@,
            },
        }
    }
}

/// What one walk event leads to: print the path, report a diagnostic on the
/// root, abort the whole run, or nothing.
pub enum Action {
    Emit { path: String },
    Report { root: String, description: String },
    Abort { description: String },
    Ignore,
}

/// The mathematical content of an [`Action`].
pub enum ActionView {
    Emit { path: Seq<char> },
    Report { root: Seq<char>, description: Seq<char> },
    Abort { description: Seq<char> },
    Ignore,
}

impl View for Action {
    type V = ActionView;

    open spec fn view(&self) -> ActionView {
        match self {
            Action::Emit { path } => ActionView::Emit { path: path@ },
            Action::Report { root, description } => ActionView::Report {
                root: root@,
                description: description@,
            },
            Action::Abort { description } => ActionView::Abort { description: description@ },
            Action::Ignore => ActionView::Ignore,
        }
    }
}

/// The action a configuration takes on one event met under `root`: entry
/// resolution failures are reported and recovered from, metadata failures
/// abort the run, and a resolved entry is printed exactly when it is
/// visible.
pub open spec fn action_for(c: ConfigView, root: Seq<char>, ev: EventView) -> ActionView {
    match ev {
        EventView::ResolutionFailure { description } => ActionView::Report { root, description },
        EventView::MetadataFailure { description } => ActionView::Abort { description },
        EventView::Resolved { kind, base_name, path } => if entry_visible(c, kind, base_name) {
            ActionView::Emit { path }
        } else {
            ActionView::Ignore
        },
    }
}

/// Whether `ev` resolves an entry with path `p` that both filters let
/// through.
pub open spec fn event_emits(c: ConfigView, ev: EventView, p: Seq<char>) -> bool {
    ev matches EventView::Resolved { kind, base_name, path } && path == p && entry_visible(
        c,
        kind,
        base_name,
    )
}

/// An absent type filter lets every kind through, and an absent name filter
/// every name: together they let every entry through.
pub proof fn lemma_absent_filters_match_all(kind: EntryType, name: Seq<char>)
    ensures
        type_visible(None::<Seq<EntryType>>, kind),
        name_visible(None::<Seq<Seq<char>>>, name),
{
}

/// The type filter acts as a set union of kinds: two filters that contain
/// the same kinds make the same kinds visible, whatever the order and
/// multiplicity of their elements.
pub proof fn lemma_type_filter_order_independent(
    kinds1: Seq<EntryType>,
    kinds2: Seq<EntryType>,
    kind: EntryType,
)
    requires
        forall|k: EntryType| kinds1.contains(k) <==> kinds2.contains(k),
    ensures
        type_visible(Some(kinds1), kind) == type_visible(Some(kinds2), kind),
{
    assert(kinds1.contains(kind) <==> kinds2.contains(kind));
}

/// Two configurations with the same name filter whose type filters contain
/// the same kinds make exactly the same entries visible.
pub proof fn lemma_entry_visible_type_filter_set(
    c1: ConfigView,
    c2: ConfigView,
    kind: EntryType,
    name: Seq<char>,
)
    requires
        c1.names == c2.names,
        ({
            &&& c1.entry_types matches Some(kinds1)
            &&& c2.entry_types matches Some(kinds2)
            &&& forall|k: EntryType| kinds1.contains(k) <==> kinds2.contains(k)
        }),
    ensures
        entry_visible(c1, kind, name) == entry_visible(c2, kind, name),
{
    lemma_type_filter_order_independent(c1.entry_types->0, c2.entry_types->0, kind);
}

/// The name filter is a disjunction over its patterns: a base name passes a
/// present filter exactly when at least one pattern matches somewhere in
/// it.
pub proof fn lemma_name_filter_is_or(pats: Seq<Seq<char>>, name: Seq<char>)
    ensures
        name_visible(Some(pats), name) <==> exists|i: int|
            0 <= i < pats.len() && pattern_found_in(pats[i], name),
{
}

/// The printed paths are exactly the paths of the visible entries: a path
/// is among `emitted_paths` if and only if some event resolved an entry
/// with that path whose kind and base name both pass the filters.
pub proof fn lemma_emitted_paths_exact(c: ConfigView, events: Seq<EventView>, p: Seq<char>)
    ensures
        emitted_paths(c, events).contains(p) <==> exists|i: int|
            0 <= i < events.len() && event_emits(c, #[trigger] events[i], p),
    decreases events.len(),
{
    if events.len() == 0 {
        assert(emitted_paths(c, events) =~= Seq::<Seq<char>>::empty());
    } else {
        let rest = events.drop_last();
        let last = events.last();
        lemma_emitted_paths_exact(c, rest, p);
        assert(forall|i: int| 0 <= i < rest.len() ==> #[trigger] events[i] == rest[i]);
        let er = emitted_paths(c, rest);
        if event_emits(c, last, p) {
            assert(emitted_paths(c, events) == er.push(p));
            assert(emitted_paths(c, events)[er.len() as int] == p);
            assert(emitted_paths(c, events).contains(p));
            assert(event_emits(c, events[events.len() - 1], p));
        } else {
            if emitted_paths(c, events).contains(p) {
                let j = choose|j: int|
                    0 <= j < emitted_paths(c, events).len() && emitted_paths(c, events)[j] == p;
                assert(er.contains(p)) by {
                    if last is Resolved && entry_visible(
                        c,
                        last->Resolved_kind,
                        last->Resolved_base_name,
                    ) {
                        assert(emitted_paths(c, events) == er.push(last->Resolved_path));
                        assert(j < er.len());
                        assert(er[j] == p);
                    } else {
                        assert(emitted_paths(c, events) == er);
                        assert(er[j] == p);
                    }
                }
            }
            if er.contains(p) {
                let j = choose|j: int| 0 <= j < er.len() && er[j] == p;
                if last is Resolved && entry_visible(
                    c,
                    last->Resolved_kind,
                    last->Resolved_base_name,
                ) {
                    assert(emitted_paths(c, events) == er.push(last->Resolved_path));
                    assert(emitted_paths(c, events)[j] == p);
                } else {
                    assert(emitted_paths(c, events) == er);
                }
                assert(emitted_paths(c, events).contains(p));
            }
            if exists|i: int| 0 <= i < events.len() && event_emits(c, #[trigger] events[i], p) {
                let i = choose|i: int|
                    0 <= i < events.len() && event_emits(c, #[trigger] events[i], p);
                assert(i < rest.len() || events[i] == last);
                assert(!event_emits(c, last, p));
                assert(event_emits(c, rest[i], p));
            }
        }
    }
}

/// A reported per-entry diagnostic: the root under which the failure was
/// met, and the failure's description.
pub struct Diagnostic {
    pub root: String,
    pub description: String,
}

impl View for Diagnostic {
    type V = (Seq<char>, Seq<char>);

    open spec fn view(&self) -> (Seq<char>, Seq<char>) {
        (self.root@, self.description@)
    }
}

/// The views of a sequence of events, in order.
pub open spec fn event_views(events: Seq<EntryEvent>) -> Seq<EventView> {
    events.map_values(|e: EntryEvent| e@)
}

/// The views of a sequence of diagnostics, in order.
pub open spec fn diagnostic_views(ds: Seq<Diagnostic>) -> Seq<(Seq<char>, Seq<char>)> {
    ds.map_values(|d: Diagnostic| d@)
}

/// The index of the first metadata failure among `events`, or their length
/// if there is none: nothing after it is processed.
pub open spec fn fatal_cut(events: Seq<EventView>) -> int
    decreases events.len(),
{
    if events.len() == 0 {
        0
    } else if events[0] is MetadataFailure {
        0
    } else {
        1 + fatal_cut(events.drop_first())
    }
}

/// The paths of the visible resolved entries among `events`, in order.
pub open spec fn emitted_paths(c: ConfigView, events: Seq<EventView>) -> Seq<Seq<char>>
    decreases events.len(),
{
    if events.len() == 0 {
        Seq::empty()
    } else {
        let rest = emitted_paths(c, events.drop_last());
        match events.last() {
            EventView::Resolved { kind, base_name, path } => if entry_visible(
                c,
                kind,
                base_name,
            ) {
                rest.push(path)
            } else {
                rest
            },
            _ => rest,
        }
    }
}

/// The diagnostics for the resolution failures among `events`, in order,
/// each paired with the root they were met under.
pub open spec fn reported_failures(root: Seq<char>, events: Seq<EventView>) -> Seq<
    (Seq<char>, Seq<char>),
>
    decreases events.len(),
{
    if events.len() == 0 {
        Seq::empty()
    } else {
        let rest = reported_failures(root, events.drop_last());
        match events.last() {
            EventView::ResolutionFailure { description } => rest.push((root, description)),
            _ => rest,
        }
    }
}

/// The mathematical content of a run's output: printed paths, reported
/// diagnostics, and the description of the fatal metadata failure, if one
/// cut the run short.
pub struct OutputView {
    pub printed: Seq<Seq<char>>,
    pub diagnostics: Seq<(Seq<char>, Seq<char>)>,
    pub fatal: Option<Seq<char>>,
}

/// What walking one root comes to: every event strictly before the first
/// metadata failure is processed, and that failure, if present, is fatal.
pub open spec fn root_output(c: ConfigView, root: Seq<char>, events: Seq<EventView>) -> OutputView {
    let cut = fatal_cut(events);
    OutputView {
        printed: emitted_paths(c, events.take(cut)),
        diagnostics: reported_failures(root, events.take(cut)),
        fatal: if cut < events.len() {
            Some(events[cut]->MetadataFailure_description)
        } else {
            None
        },
    }
}

/// What a whole run prints and reports, with the fatal cut applied.
pub struct RunOutput {
    pub printed: Vec<String>,
    pub diagnostics: Vec<Diagnostic>,
    pub fatal: Option<String>,
}

impl View for RunOutput {
    type V = OutputView;

    open spec fn view(&self) -> OutputView {
        OutputView {
            printed: string_views(self.printed@),
            diagnostics: diagnostic_views(self.diagnostics@),
            fatal: match self.fatal {
                None => None,
                Some(d) => Some(d@),
            },
        }
    }
}

proof fn lemma_fatal_cut_at(events: Seq<EventView>, i: int)
    requires
        0 <= i < events.len(),
        forall|k: int| 0 <= k < i ==> !(#[trigger] events[k] is MetadataFailure),
        events[i] is MetadataFailure,
    ensures
        fatal_cut(events) == i,
    decreases i,
{
    if i == 0 {
    } else {
        assert(!(events[0] is MetadataFailure));
        let rest = events.drop_first();
        assert(forall|k: int| 0 <= k < i - 1 ==> !(#[trigger] rest[k] is MetadataFailure));
        lemma_fatal_cut_at(rest, i - 1);
    }
}

proof fn lemma_fatal_cut_all(events: Seq<EventView>)
    requires
        forall|k: int| 0 <= k < events.len() ==> !(#[trigger] events[k] is MetadataFailure),
    ensures
        fatal_cut(events) == events.len(),
    decreases events.len(),
{
    if events.len() > 0 {
        let rest = events.drop_first();
        assert(forall|k: int| 0 <= k < rest.len() ==> !(#[trigger] rest[k] is MetadataFailure));
        lemma_fatal_cut_all(rest);
    }
}

impl Config {
    /// Whether an entry of kind `kind` whose base name is `base_name` passes
    /// both filters of this configuration.
    pub fn entry_matches(&self, kind: EntryType, base_name: &String) -> (r: bool)
        ensures
            r == entry_visible(self@, kind, base_name@),
    {
        let type_match = match &self.entry_types {
            None => true,
            Some(kinds) => {
                let mut found = false;
                let mut i: usize = 0;
                while i < kinds.len()
                    invariant
                        i <= kinds.len(),
                        found == exists|k: int| 0 <= k < i && kinds@[k] == kind,
                    decreases kinds.len() - i,
                {
                    if kinds[i] == kind {
                        found = true;
                    }
                    i = i + 1;
                }
                found
            },
        };
        let name_match = match &self.names {
            None => true,
            Some(pats) => {
                let mut found = false;
                let mut i: usize = 0;
                while i < pats.len()
                    invariant
                        i <= pats.len(),
                        found == exists|k: int|
                            0 <= k < i && pattern_found_in(pats@[k]@, base_name@),
                    decreases pats.len() - i,
                {
                    if pats[i].is_match(base_name) {
                        found = true;
                    }
                    i = i + 1;
                }
                proof {
                    let m = pattern_views(pats@);
                    assert(forall|k: int|
                        0 <= k < pats@.len() ==> #[trigger] m[k] == pats@[k]@);
                    if found {
                        let k = choose|k: int|
                            0 <= k < pats@.len() && pattern_found_in(pats@[k]@, base_name@);
                        assert(pattern_found_in(m[k], base_name@));
                        assert(any_pattern_found(m, base_name@));
                    } else {
                        assert forall|k: int|
                            0 <= k < m.len() implies !pattern_found_in(
                            #[trigger] m[k],
                            base_name@,
                        ) by {
                            assert(m[k] == pats@[k]@);
                            assert(!pattern_found_in(pats@[k]@, base_name@));
                        }
                        assert(!any_pattern_found(m, base_name@));
                    }
                }
                found
            },
        };
        type_match && name_match
    }

    /// Decides what one walk event leads to.
    pub fn process_entry(&self, root: &String, event: &EntryEvent) -> (a: Action)
        ensures
            a@ == action_for(self@, root@, event@),
    {
        match event {
            EntryEvent::ResolutionFailure { description } => Action::Report {
                root: root.clone(),
                description: description.clone(),
            },
            EntryEvent::MetadataFailure { description } => Action::Abort {
                description: description.clone(),
            },
            EntryEvent::Resolved { kind, base_name, path } => {
                if self.entry_matches(*kind, base_name) {
                    Action::Emit { path: path.clone() }
                } else {
                    Action::Ignore
                }
            },
        }
    }

    /// Processes the events met under one root, in order: prints and
    /// diagnostics accumulate until the first metadata failure, which ends
    /// the walk as fatal.
    pub fn run_root(&self, root: &String, events: &Vec<EntryEvent>) -> (out: RunOutput)
        ensures
            out@ == root_output(self@, root@, event_views(events@)),
    {
        let ghost evs = event_views(events@);
        let mut printed: Vec<String> = Vec::new();
        let mut diagnostics: Vec<Diagnostic> = Vec::new();
        let mut i: usize = 0;
        while i < events.len()
            invariant
                i <= events.len(),
                evs == event_views(events@),
                forall|k: int| 0 <= k < i ==> !(#[trigger] evs[k] is MetadataFailure),
                string_views(printed@) == emitted_paths(self@, evs.take(i as int)),
                diagnostic_views(diagnostics@) == reported_failures(root@, evs.take(i as int)),
            decreases events.len() - i,
        {
            proof {
                assert(evs.take(i as int + 1).drop_last() =~= evs.take(i as int));
                assert(evs.take(i as int + 1).last() == evs[i as int]);
            }
            let action = self.process_entry(root, &events[i]);
            match action {
                Action::Emit { path } => {
                    printed.push(path);
                    proof {
                        assert(string_views(printed@) =~= emitted_paths(
                            self@,
                            evs.take(i as int + 1),
                        ));
                        assert(diagnostic_views(diagnostics@) =~= reported_failures(
                            root@,
                            evs.take(i as int + 1),
                        ));
                    }
                },
                Action::Report { root: at_root, description } => {
                    diagnostics.push(Diagnostic { root: at_root, description });
                    proof {
                        assert(string_views(printed@) =~= emitted_paths(
                            self@,
                            evs.take(i as int + 1),
                        ));
                        assert(diagnostic_views(diagnostics@) =~= reported_failures(
                            root@,
                            evs.take(i as int + 1),
                        ));
                    }
                },
                Action::Abort { description } => {
                    proof {
                        lemma_fatal_cut_at(evs, i as int);
                    }
                    return RunOutput { printed, diagnostics, fatal: Some(description) };
                },
                Action::Ignore => {
                    proof {
                        assert(string_views(printed@) =~= emitted_paths(
                            self@,
                            evs.take(i as int + 1),
                        ));
                        assert(diagnostic_views(diagnostics@) =~= reported_failures(
                            root@,
                            evs.take(i as int + 1),
                        ));
                    }
                },
            }
            i = i + 1;
        }
        proof {
            lemma_fatal_cut_all(evs);
            assert(evs.take(evs.len() as int) =~= evs);
        }
        RunOutput { printed, diagnostics, fatal: None }
    }
}

/// One root together with the events met while walking it, in order.
pub struct RootWalk {
    pub root: String,
    pub events: Vec<EntryEvent>,
}

/// The mathematical content of a [`RootWalk`].
pub struct WalkView {
    pub root: Seq<char>,
    pub events: Seq<EventView>,
}

impl View for RootWalk {
    type V = WalkView;

    open spec fn view(&self) -> WalkView {
        WalkView { root: self.root@, events: event_views(self.events@) }
    }
}

/// The views of a sequence of root walks, in order.
pub open spec fn walk_views(walks: Seq<RootWalk>) -> Seq<WalkView> {
    walks.map_values(|w: RootWalk| w@)
}

/// `rest`, with `printed` and `diagnostics` in front of its own.
pub open spec fn prepend_output(
    printed: Seq<Seq<char>>,
    diagnostics: Seq<(Seq<char>, Seq<char>)>,
    rest: OutputView,
) -> OutputView {
    OutputView {
        printed: printed + rest.printed,
        diagnostics: diagnostics + rest.diagnostics,
        fatal: rest.fatal,
    }
}

/// What a run over the given roots, in order, comes to: each root's walk in
/// full, until the first fatal metadata failure ends the run.
pub open spec fn run_output(c: ConfigView, walks: Seq<WalkView>) -> OutputView
    decreases walks.len(),
{
    if walks.len() == 0 {
        OutputView { printed: Seq::empty(), diagnostics: Seq::empty(), fatal: None }
    } else {
        let first = root_output(c, walks[0].root, walks[0].events);
        if first.fatal is Some {
            first
        } else {
            prepend_output(first.printed, first.diagnostics, run_output(c, walks.drop_first()))
        }
    }
}

/// Across all roots, the printed paths are exactly the paths of the
/// entries whose kind and base name both pass the filters: as long as no
/// metadata failure cuts the run short, a path is printed if and only if
/// some root's walk resolved a visible entry with that path.
pub proof fn lemma_run_output_exact(c: ConfigView, walks: Seq<WalkView>, p: Seq<char>)
    requires
        forall|w: int, k: int|
            0 <= w < walks.len() && 0 <= k < walks[w].events.len() ==> !((
            #[trigger] walks[w].events[k]) is MetadataFailure),
    ensures
        run_output(c, walks).printed.contains(p) <==> exists|w: int, i: int|
            0 <= w < walks.len() && 0 <= i < walks[w].events.len() && event_emits(
                c,
                #[trigger] walks[w].events[i],
                p,
            ),
    decreases walks.len(),
{
    if walks.len() == 0 {
        assert(run_output(c, walks).printed =~= Seq::<Seq<char>>::empty());
    } else {
        let events = walks[0].events;
        let rest = walks.drop_first();
        assert(forall|k: int| 0 <= k < events.len() ==> !((#[trigger] events[k]) is MetadataFailure));
        lemma_fatal_cut_all(events);
        assert(events.take(events.len() as int) =~= events);
        let first = root_output(c, walks[0].root, events);
        assert(first.fatal is None);
        assert(first.printed == emitted_paths(c, events));
        lemma_emitted_paths_exact(c, events, p);
        assert(forall|w: int, k: int|
            0 <= w < rest.len() && 0 <= k < rest[w].events.len() ==> !((
            #[trigger] rest[w].events[k]) is MetadataFailure)) by {
            assert(forall|w: int| 0 <= w < rest.len() ==> rest[w] == walks[w + 1]);
        }
        lemma_run_output_exact(c, rest, p);
        let total = run_output(c, walks).printed;
        assert(total == first.printed + run_output(c, rest).printed);
        if total.contains(p) {
            let j = choose|j: int| 0 <= j < total.len() && total[j] == p;
            if j < first.printed.len() {
                assert(first.printed[j] == p);
                assert(first.printed.contains(p));
                let i = choose|i: int|
                    0 <= i < events.len() && event_emits(c, #[trigger] events[i], p);
                assert(event_emits(c, walks[0].events[i], p));
            } else {
                assert(run_output(c, rest).printed[j - first.printed.len()] == p);
                assert(run_output(c, rest).printed.contains(p));
                let (w, i) = choose|w: int, i: int|
                    0 <= w < rest.len() && 0 <= i < rest[w].events.len() && event_emits(
                        c,
                        #[trigger] rest[w].events[i],
                        p,
                    );
                assert(rest[w] == walks[w + 1]);
                assert(event_emits(c, walks[w + 1].events[i], p));
            }
        }
        if exists|w: int, i: int|
            0 <= w < walks.len() && 0 <= i < walks[w].events.len() && event_emits(
                c,
                #[trigger] walks[w].events[i],
                p,
            ) {
            let (w, i) = choose|w: int, i: int|
                0 <= w < walks.len() && 0 <= i < walks[w].events.len() && event_emits(
                    c,
                    #[trigger] walks[w].events[i],
                    p,
                );
            if w == 0 {
                assert(event_emits(c, events[i], p));
                assert(first.printed.contains(p));
                let j = choose|j: int|
                    0 <= j < first.printed.len() && first.printed[j] == p;
                assert(total[j] == p);
                assert(total.contains(p));
            } else {
                assert(rest[w - 1] == walks[w]);
                assert(event_emits(c, rest[w - 1].events[i], p));
                assert(run_output(c, rest).printed.contains(p));
                let j = choose|j: int|
                    0 <= j < run_output(c, rest).printed.len() && run_output(c, rest).printed[j]
                        == p;
                assert(total[first.printed.len() + j] == p);
                assert(total.contains(p));
            }
        }
    }
}

/// Runs the whole search over the walks of the configuration's roots, in
/// the order given: paths of visible entries and per-entry diagnostics
/// accumulate across roots until the first metadata failure, which is
/// fatal and ends the run.
pub fn run(config: &Config, walks: &Vec<RootWalk>) -> (out: RunOutput)
    ensures
        out@ == run_output(config@, walk_views(walks@)),
{
    let ghost ws = walk_views(walks@);
    let mut printed: Vec<String> = Vec::new();
    let mut diagnostics: Vec<Diagnostic> = Vec::new();
    proof {
        assert(ws.skip(0) =~= ws);
        assert(string_views(printed@) =~= Seq::<Seq<char>>::empty());
        assert(diagnostic_views(diagnostics@) =~= Seq::<(Seq<char>, Seq<char>)>::empty());
        assert(Seq::<Seq<char>>::empty() + run_output(config@, ws).printed =~= run_output(
            config@,
            ws,
        ).printed);
        assert(Seq::<(Seq<char>, Seq<char>)>::empty() + run_output(config@, ws).diagnostics
            =~= run_output(config@, ws).diagnostics);
    }
    let mut i: usize = 0;
    while i < walks.len()
        invariant
            i <= walks.len(),
            ws == walk_views(walks@),
            run_output(config@, ws) == prepend_output(
                string_views(printed@),
                diagnostic_views(diagnostics@),
                run_output(config@, ws.skip(i as int)),
            ),
        decreases walks.len() - i,
    {
        let w = &walks[i];
        let mut part = config.run_root(&w.root, &w.events);
        let ghost pv = part@;
        let ghost p_before = printed@;
        let ghost d_before = diagnostics@;
        printed.append(&mut part.printed);
        diagnostics.append(&mut part.diagnostics);
        proof {
            let rem = ws.skip(i as int);
            assert(rem[0] == ws[i as int]);
            assert(ws[i as int] == walks@[i as int]@);
            assert(pv == root_output(config@, rem[0].root, rem[0].events));
            assert(rem.drop_first() =~= ws.skip(i as int + 1));
            assert(string_views(printed@) =~= string_views(p_before) + pv.printed);
            assert(diagnostic_views(diagnostics@) =~= diagnostic_views(d_before) + pv.diagnostics);
        }
        match part.fatal {
            Some(description) => {
                proof {
                    assert(pv.fatal == Some(description@));
                    assert(run_output(config@, ws.skip(i as int)) == pv);
                }
                return RunOutput { printed, diagnostics, fatal: Some(description) };
            },
            None => {
                proof {
                    let rest = run_output(config@, ws.skip(i as int + 1));
                    assert(pv.fatal is None);
                    assert(run_output(config@, ws.skip(i as int)) == prepend_output(
                        pv.printed,
                        pv.diagnostics,
                        rest,
                    ));
                    assert((string_views(p_before) + pv.printed) + rest.printed =~= string_views(
                        p_before,
                    ) + (pv.printed + rest.printed));
                    assert((diagnostic_views(d_before) + pv.diagnostics) + rest.diagnostics
                        =~= diagnostic_views(d_before) + (pv.diagnostics + rest.diagnostics));
                }
            },
        }
        i = i + 1;
    }
    proof {
        assert(ws.skip(i as int) =~= Seq::<WalkView>::empty());
        assert(string_views(printed@) + Seq::<Seq<char>>::empty() =~= string_views(printed@));
        assert(diagnostic_views(diagnostics@) + Seq::<(Seq<char>, Seq<char>)>::empty()
            =~= diagnostic_views(diagnostics@));
    }
    RunOutput { printed, diagnostics, fatal: None }
}

} // verus!
