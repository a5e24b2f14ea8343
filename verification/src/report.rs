//! The benchmark's result files: their names, the check that a table does
//! not mix commits or Blender versions, the list of runs a table still
//! lacks, and the labels it gives a pressure solve.
//!
//! Each run of either solver writes one summary; the report reads them
//! back. What the checks here read of a summary is its key: solver, scene,
//! resolution and commit (and, for a latency run, Blender's version).

use vstd::prelude::*;
use crate::solver::PressureSolve;
use crate::text::{decimal, decimal_string, lemma_lex_total_ordering, lex_order, owned, sort_lines, sorted_text, str_equal, views};

verus! {

/// Where and on what the results were produced, for the table's header.
#[derive(Debug, Clone, PartialEq, Eq)]
pub struct Context {
    pub machine: String,
    pub os: String,
    pub commit: String,
    pub blender: String,
    pub date: String,
}

/// What the report checks read of one run's summary.
#[derive(Debug, Clone, PartialEq, Eq)]
pub struct RunKey {
    /// "ember" or "mantaflow".
    pub solver: String,
    pub scene: String,
    pub resolution: u32,
    /// The Ember commit the run was built from, with `-dirty` for a changed tree.
    pub commit: String,
}

/// What the report checks read of one latency run's summary.
#[derive(Debug, Clone, PartialEq, Eq)]
pub struct LatencyKey {
    /// "ember" or "mantaflow".
    pub solver: String,
    pub scene: String,
    pub resolution: u32,
    pub commit: String,
    /// Blender's version string for Mantaflow runs; `None` for Ember.
    pub blender: Option<String>,
    /// Each latency point's frame and how many timed runs it has.
    pub points: Vec<PointRuns>,
}

/// One latency point's frame N and its number of timed runs.
#[derive(Debug, Clone, Copy, PartialEq, Eq, Structural)]
pub struct PointRuns {
    pub frame: u32,
    pub runs: u64,
}

/// `{solver}-{scene}-{resolution}`: a run's name, the stem of its file.
pub open spec fn run_stem(solver: Seq<char>, scene: Seq<char>, resolution: u32) -> Seq<char> {
    solver + seq!['-'] + scene + seq!['-'] + decimal(resolution as nat)
}

/// `latency-{solver}-{scene}-{resolution}`.
pub open spec fn latency_stem(solver: Seq<char>, scene: Seq<char>, resolution: u32) -> Seq<char> {
    seq!['l', 'a', 't', 'e', 'n', 'c', 'y', '-'] + run_stem(solver, scene, resolution)
}

pub open spec fn json_suffix() -> Seq<char> {
    seq!['.', 'j', 's', 'o', 'n']
}

/// `{label}: {value}`.
pub open spec fn labelled_line(label: Seq<char>, value: Seq<char>) -> Seq<char> {
    label + seq![':', ' '] + value
}

fn push_dash(s: &mut String)
    ensures
        final(s)@ == old(s)@ + seq!['-'],
{
    proof { reveal_strlit("-"); }
    s.append("-");
}

/// A run's name, `{solver}-{scene}-{resolution}`.
pub fn run_name(solver: &str, scene: &str, resolution: u32) -> (s: String)
    ensures
        s@ == run_stem(solver@, scene@, resolution),
{
    let mut s = owned(solver);
    push_dash(&mut s);
    s.append(scene);
    push_dash(&mut s);
    let digits = decimal_string(resolution as u64);
    s.append(digits.as_str());
    s
}

/// A latency run's name, `latency-{solver}-{scene}-{resolution}`.
pub fn latency_name(solver: &str, scene: &str, resolution: u32) -> (s: String)
    ensures
        s@ == latency_stem(solver@, scene@, resolution),
{
    proof { reveal_strlit("latency-"); }
    let mut s = owned("latency-");
    let stem = run_name(solver, scene, resolution);
    s.append(stem.as_str());
    s
}

/// The file name of a run's summary, `{solver}-{scene}-{resolution}.json`;
/// the summary lives at this name inside the results directory.
pub fn summary_file_name(solver: &str, scene: &str, resolution: u32) -> (s: String)
    ensures
        s@ == run_stem(solver@, scene@, resolution) + json_suffix(),
{
    let mut s = run_name(solver, scene, resolution);
    proof { reveal_strlit(".json"); }
    s.append(".json");
    s
}

/// The file name of a latency run's summary,
/// `latency-{solver}-{scene}-{resolution}.json`.
pub fn latency_file_name(solver: &str, scene: &str, resolution: u32) -> (s: String)
    ensures
        s@ == latency_stem(solver@, scene@, resolution) + json_suffix(),
{
    let mut s = latency_name(solver, scene, resolution);
    proof { reveal_strlit(".json"); }
    s.append(".json");
    s
}

/// The value every labelled item shares: the first item's (nothing when
/// there are no items).
pub open spec fn first_value(items: Seq<(Seq<char>, Seq<char>)>) -> Seq<char> {
    if items.len() == 0 { Seq::empty() } else { items[0].1 }
}

/// Whether every item has the same value.
pub open spec fn shares_value(items: Seq<(Seq<char>, Seq<char>)>) -> bool {
    forall|i: int| 0 <= i < items.len() ==> #[trigger] items[i].1 == first_value(items)
}

/// One `{label}: {value}` line per item.
pub open spec fn value_lines(items: Seq<(Seq<char>, Seq<char>)>) -> Seq<Seq<char>> {
    items.map_values(|it: (Seq<char>, Seq<char>)| labelled_line(it.0, it.1))
}

/// The value every item shares, or one `{label}: {value}` line per item,
/// sorted, when they differ.
pub open spec fn shared_value(items: Seq<(Seq<char>, Seq<char>)>) -> Result<Seq<char>, Seq<Seq<char>>> {
    if shares_value(items) { Ok(first_value(items)) } else { Err(sorted_text(value_lines(items))) }
}

/// The characters of a report result.
pub open spec fn result_view(r: Result<String, Vec<String>>) -> Result<Seq<char>, Seq<Seq<char>>> {
    match r {
        Ok(s) => Ok(s@),
        Err(lines) => Err(views(lines@)),
    }
}

pub open spec fn pair_views(items: Seq<(String, String)>) -> Seq<(Seq<char>, Seq<char>)> {
    items.map_values(|p: (String, String)| (p.0@, p.1@))
}

/// Whether every item has the same value, and the first item's value.
fn value_agreement(items: &Vec<(String, String)>) -> (r: (bool, String))
    ensures
        r.0 == shares_value(pair_views(items@)),
        r.1@ == first_value(pair_views(items@)),
{
    let ghost v = pair_views(items@);
    let first = if items.len() == 0 { String::new() } else { items[0].1.clone() };
    let mut i: usize = 0;
    let mut same = true;
    while i < items.len()
        invariant
            v == pair_views(items@),
            first@ == first_value(v),
            i <= items.len(),
            same <==> forall|j: int| 0 <= j < i ==> #[trigger] v[j].1 == first_value(v),
        decreases items.len() - i,
    {
        proof { assert(v[i as int].1 == items@[i as int].1@); }
        if !(items[i].1 == first) {
            same = false;
        }
        i = i + 1;
    }
    (same, first)
}

/// One `{label}: {value}` line per item, in order.
fn value_line_list(items: &Vec<(String, String)>) -> (lines: Vec<String>)
    ensures
        views(lines@) == value_lines(pair_views(items@)),
{
    let ghost v = pair_views(items@);
    let mut lines: Vec<String> = Vec::new();
    let mut k: usize = 0;
    while k < items.len()
        invariant
            v == pair_views(items@),
            k <= items.len(),
            views(lines@) == value_lines(v).take(k as int),
        decreases items.len() - k,
    {
        let mut line = items[k].0.clone();
        proof { reveal_strlit(": "); }
        line.append(": ");
        line.append(items[k].1.as_str());
        let ghost prev = lines@;
        proof {
            assert(v[k as int] == (items@[k as int].0@, items@[k as int].1@));
            assert(line@ == labelled_line(v[k as int].0, v[k as int].1));
        }
        lines.push(line);
        proof {
            assert(views(lines@) =~= views(prev).push(line@));
            assert(value_lines(v).take(k + 1) =~= value_lines(v).take(k as int).push(value_lines(v)[k as int]));
        }
        k = k + 1;
    }
    proof { assert(value_lines(v).take(items.len() as int) =~= value_lines(v)); }
    lines
}

/// The value every labelled item shares, or one `{label}: {value}` line
/// per item, sorted, when they differ.
pub fn one_commit(items: Vec<(String, String)>) -> (r: Result<String, Vec<String>>)
    ensures
        result_view(r) == shared_value(pair_views(items@)),
{
    let (same, first) = value_agreement(&items);
    if same {
        return Ok(first);
    }
    Err(sort_lines(value_line_list(&items)))
}

/// Each run labelled `{solver}-{scene}-{resolution}`, with its commit.
pub open spec fn run_commits(runs: Seq<RunKey>) -> Seq<(Seq<char>, Seq<char>)> {
    runs.map_values(|r: RunKey| (run_stem(r.solver@, r.scene@, r.resolution), r.commit@))
}

/// Each latency run labelled `latency-{solver}-{scene}-{resolution}`, with its commit.
pub open spec fn latency_commits(runs: Seq<LatencyKey>) -> Seq<(Seq<char>, Seq<char>)> {
    runs.map_values(|r: LatencyKey| (latency_stem(r.solver@, r.scene@, r.resolution), r.commit@))
}

/// The commit every summary was built from, or one line per summary,
/// `{solver}-{scene}-{resolution}: {commit}`, sorted, when they differ. A
/// table mixing commits would compare different code.
pub fn single_commit(summaries: &[RunKey]) -> (r: Result<String, Vec<String>>)
    ensures
        result_view(r) == shared_value(run_commits(summaries@)),
{
    let mut items: Vec<(String, String)> = Vec::new();
    let mut i: usize = 0;
    while i < summaries.len()
        invariant
            i <= summaries.len(),
            pair_views(items@) == run_commits(summaries@).take(i as int),
        decreases summaries.len() - i,
    {
        let s = &summaries[i];
        let label = run_name(s.solver.as_str(), s.scene.as_str(), s.resolution);
        let ghost prev = items@;
        items.push((label, s.commit.clone()));
        proof {
            assert(pair_views(items@) =~= pair_views(prev).push((label@, s.commit@)));
            assert(run_commits(summaries@).take(i + 1) =~= run_commits(summaries@).take(i as int).push(run_commits(summaries@)[i as int]));
        }
        i = i + 1;
    }
    proof { assert(run_commits(summaries@).take(summaries.len() as int) =~= run_commits(summaries@)); }
    one_commit(items)
}

/// Like `single_commit`, for latency summaries, labelled
/// `latency-{solver}-{scene}-{resolution}`.
pub fn single_latency_commit(summaries: &[LatencyKey]) -> (r: Result<String, Vec<String>>)
    ensures
        result_view(r) == shared_value(latency_commits(summaries@)),
{
    let mut items: Vec<(String, String)> = Vec::new();
    let mut i: usize = 0;
    while i < summaries.len()
        invariant
            i <= summaries.len(),
            pair_views(items@) == latency_commits(summaries@).take(i as int),
        decreases summaries.len() - i,
    {
        let s = &summaries[i];
        let label = latency_name(s.solver.as_str(), s.scene.as_str(), s.resolution);
        let ghost prev = items@;
        items.push((label, s.commit.clone()));
        proof {
            assert(pair_views(items@) =~= pair_views(prev).push((label@, s.commit@)));
            assert(latency_commits(summaries@).take(i + 1) =~= latency_commits(summaries@).take(i as int).push(latency_commits(summaries@)[i as int]));
        }
        i = i + 1;
    }
    proof { assert(latency_commits(summaries@).take(summaries.len() as int) =~= latency_commits(summaries@)); }
    one_commit(items)
}

/// A latency run's Blender version, "unknown" when it names none.
pub open spec fn blender_of(r: LatencyKey) -> Seq<char> {
    match r.blender {
        Some(b) => b@,
        None => "unknown"@,
    }
}

/// The Mantaflow runs, in order, labelled, with their Blender versions.
pub open spec fn mantaflow_blenders(runs: Seq<LatencyKey>) -> Seq<(Seq<char>, Seq<char>)>
    decreases runs.len(),
{
    if runs.len() == 0 {
        Seq::empty()
    } else {
        let rest = mantaflow_blenders(runs.drop_last());
        let r = runs.last();
        if r.solver@ == "mantaflow"@ {
            rest.push((latency_stem(r.solver@, r.scene@, r.resolution), blender_of(r)))
        } else {
            rest
        }
    }
}

/// The Blender version every Mantaflow latency summary names ("unknown"
/// for one that names none), or one `{label}: {version}` line per Mantaflow
/// summary, sorted, when they differ: a table mixing Blender versions would
/// compare different Mantaflows.
pub fn single_latency_blender(summaries: &[LatencyKey]) -> (r: Result<String, Vec<String>>)
    ensures
        result_view(r) == shared_value(mantaflow_blenders(summaries@)),
{
    let mut items: Vec<(String, String)> = Vec::new();
    let mut i: usize = 0;
    while i < summaries.len()
        invariant
            i <= summaries.len(),
            pair_views(items@) == mantaflow_blenders(summaries@.take(i as int)),
        decreases summaries.len() - i,
    {
        let s = &summaries[i];
        proof { assert(summaries@.take(i + 1).drop_last() =~= summaries@.take(i as int)); }
        if str_equal(s.solver.as_str(), "mantaflow") {
            let label = latency_name(s.solver.as_str(), s.scene.as_str(), s.resolution);
            let version = match &s.blender {
                Some(b) => b.clone(),
                None => owned("unknown"),
            };
            let ghost prev = items@;
            items.push((label, version));
            proof { assert(pair_views(items@) =~= pair_views(prev).push((label@, version@))); }
        }
        i = i + 1;
    }
    proof { assert(summaries@.take(summaries.len() as int) =~= summaries@); }
    one_commit(items)
}

/// The label the report gives a pressure solve, e.g. "MGPCG ×4".
pub open spec fn spec_pressure_label(p: PressureSolve) -> Seq<char> {
    match p {
        PressureSolve::GaussSeidel(n) => "Gauss–Seidel ×"@ + decimal(n as nat),
        PressureSolve::Multigrid(n) => "multigrid V-cycles ×"@ + decimal(n as nat),
        PressureSolve::Mgpcg(n) => "MGPCG ×"@ + decimal(n as nat),
    }
}

/// A pressure solve as the report names it, e.g. "MGPCG ×4".
pub fn pressure_label(p: PressureSolve) -> (s: String)
    ensures
        s@ == spec_pressure_label(p),
{
    let (mut s, n) = match p {
        PressureSolve::GaussSeidel(n) => (owned("Gauss–Seidel ×"), n),
        PressureSolve::Multigrid(n) => (owned("multigrid V-cycles ×"), n),
        PressureSolve::Mgpcg(n) => (owned("MGPCG ×"), n),
    };
    let digits = decimal_string(n as u64);
    s.append(digits.as_str());
    s
}

} // verus!

verus! {

/// Every scene the results table needs.
pub const SCENES: [&'static str; 4] = ["plume", "plume_collider", "plume_wind", "fire"];
/// The scenes whose smoke comes from an emitter; in `fire` it comes from burning.
pub const SMOKE_SCENES: [&'static str; 3] = ["plume", "plume_collider", "plume_wind"];
/// The scenes the latency table needs, which predates fire.
pub const LATENCY_SCENES: [&'static str; 3] = ["plume", "plume_collider", "plume_wind"];
pub const RESOLUTIONS: [u32; 3] = [64, 128, 256];
pub const SOLVERS: [&'static str; 2] = ["ember", "mantaflow"];
/// The resolution the latency table reports.
pub const LATENCY_RESOLUTION: u32 = 128;

pub open spec fn table_scenes() -> Seq<Seq<char>> {
    seq!["plume"@, "plume_collider"@, "plume_wind"@, "fire"@]
}

pub open spec fn latency_scenes() -> Seq<Seq<char>> {
    seq!["plume"@, "plume_collider"@, "plume_wind"@]
}

pub open spec fn solvers() -> Seq<Seq<char>> {
    seq!["ember"@, "mantaflow"@]
}

pub open spec fn resolutions() -> Seq<u32> {
    seq![64u32, 128u32, 256u32]
}

fn table_scene_strings() -> (v: Vec<String>)
    ensures
        views(v@) == table_scenes(),
{
    let v = vec![owned("plume"), owned("plume_collider"), owned("plume_wind"), owned("fire")];
    proof { assert(views(v@) =~= table_scenes()); }
    v
}

/// Whether `v` holds a string with the characters of `s`.
fn contains_text(v: &Vec<String>, s: &str) -> (found: bool)
    ensures
        found == views(v@).contains(s@),
{
    let mut i: usize = 0;
    while i < v.len()
        invariant
            i <= v.len(),
            forall|j: int| 0 <= j < i ==> #[trigger] views(v@)[j] != s@,
        decreases v.len() - i,
    {
        if str_equal(v[i].as_str(), s) {
            proof { assert(views(v@)[i as int] == s@); }
            return true;
        }
        i = i + 1;
    }
    false
}

/// The table's scenes, then every other scene the summaries name, in the
/// order they first appear.
pub open spec fn scene_order(runs: Seq<RunKey>) -> Seq<Seq<char>>
    decreases runs.len(),
{
    if runs.len() == 0 {
        table_scenes()
    } else {
        let prev = scene_order(runs.drop_last());
        let scene = runs.last().scene@;
        if prev.contains(scene) { prev } else { prev.push(scene) }
    }
}

/// The runs of `scene`, in order, labelled `{solver}-{scene}-{resolution}`,
/// with their commits.
pub open spec fn scene_runs(runs: Seq<RunKey>, scene: Seq<char>) -> Seq<(Seq<char>, Seq<char>)>
    decreases runs.len(),
{
    if runs.len() == 0 {
        Seq::empty()
    } else {
        let rest = scene_runs(runs.drop_last(), scene);
        let r = runs.last();
        if r.scene@ == scene {
            rest.push((run_stem(r.solver@, r.scene@, r.resolution), r.commit@))
        } else {
            rest
        }
    }
}

/// Whether the runs of `scene` name more than one commit.
pub open spec fn mixes_commits(runs: Seq<RunKey>, scene: Seq<char>) -> bool {
    scene_runs(runs, scene).len() > 0 && !shares_value(scene_runs(runs, scene))
}

/// The lines naming every run of each scene, in `scenes`, that mixes commits.
pub open spec fn mixed_lines(runs: Seq<RunKey>, scenes: Seq<Seq<char>>) -> Seq<Seq<char>>
    decreases scenes.len(),
{
    if scenes.len() == 0 {
        Seq::empty()
    } else {
        let prev = mixed_lines(runs, scenes.drop_last());
        if mixes_commits(runs, scenes.last()) {
            prev + value_lines(scene_runs(runs, scenes.last()))
        } else {
            prev
        }
    }
}

/// The first group holding `commit`, or -1.
pub open spec fn group_index(groups: Seq<(Seq<char>, Seq<Seq<char>>)>, commit: Seq<char>) -> int
    decreases groups.len(),
{
    if groups.len() == 0 {
        -1
    } else if groups[0].0 == commit {
        0
    } else {
        let r = group_index(groups.drop_first(), commit);
        if r < 0 { -1 } else { r + 1 }
    }
}

/// `scene` added to the group of `commit`, or a new group at the end.
pub open spec fn add_to_group(groups: Seq<(Seq<char>, Seq<Seq<char>>)>, commit: Seq<char>, scene: Seq<char>) -> Seq<(Seq<char>, Seq<Seq<char>>)> {
    let i = group_index(groups, commit);
    if i < 0 {
        groups.push((commit, seq![scene]))
    } else {
        groups.update(i, (commit, groups[i].1.push(scene)))
    }
}

/// Each commit with the scenes built from it, commits in the order of the
/// first scene (in `scenes`) that names them.
pub open spec fn commit_groups(runs: Seq<RunKey>, scenes: Seq<Seq<char>>) -> Seq<(Seq<char>, Seq<Seq<char>>)>
    decreases scenes.len(),
{
    if scenes.len() == 0 {
        Seq::empty()
    } else {
        let g = commit_groups(runs, scenes.drop_last());
        let items = scene_runs(runs, scenes.last());
        if items.len() > 0 && shares_value(items) {
            add_to_group(g, first_value(items), scenes.last())
        } else {
            g
        }
    }
}

/// `parts` joined by `sep`.
pub open spec fn join(parts: Seq<Seq<char>>, sep: Seq<char>) -> Seq<char>
    decreases parts.len(),
{
    if parts.len() == 0 {
        Seq::empty()
    } else if parts.len() == 1 {
        parts[0]
    } else {
        join(parts.drop_last(), sep) + sep + parts.last()
    }
}

/// A scene name in backticks.
pub open spec fn quoted(name: Seq<char>) -> Seq<char> {
    seq!['`'] + name + seq!['`']
}

/// `{commit} (`a`, `b`)`.
pub open spec fn group_text(g: (Seq<char>, Seq<Seq<char>>)) -> Seq<char> {
    g.0 + seq![' ', '('] + join(g.1.map_values(|n: Seq<char>| quoted(n)), seq![',', ' ']) + seq![')']
}

/// Nothing for no groups, the commit alone for one, else each group's
/// text joined by "; ".
pub open spec fn groups_text(g: Seq<(Seq<char>, Seq<Seq<char>>)>) -> Seq<char> {
    if g.len() == 0 {
        Seq::empty()
    } else if g.len() == 1 {
        g[0].0
    } else {
        join(g.map_values(|x: (Seq<char>, Seq<Seq<char>>)| group_text(x)), seq![';', ' '])
    }
}

/// What `scene_commits` gives: the sorted lines of every scene that mixes
/// commits, or else the commit of each group of scenes.
pub open spec fn spec_scene_commits(runs: Seq<RunKey>) -> Result<Seq<char>, Seq<Seq<char>>> {
    let scenes = scene_order(runs);
    let mixed = mixed_lines(runs, scenes);
    if mixed.len() > 0 {
        Err(sorted_text(mixed))
    } else {
        Ok(groups_text(commit_groups(runs, scenes)))
    }
}

} // verus!

verus! {

/// The runs of `scene`, in order, labelled, with their commits.
fn scene_items(summaries: &[RunKey], scene: &str) -> (items: Vec<(String, String)>)
    ensures
        pair_views(items@) == scene_runs(summaries@, scene@),
{
    let mut items: Vec<(String, String)> = Vec::new();
    let mut i: usize = 0;
    while i < summaries.len()
        invariant
            i <= summaries.len(),
            pair_views(items@) == scene_runs(summaries@.take(i as int), scene@),
        decreases summaries.len() - i,
    {
        let s = &summaries[i];
        proof { assert(summaries@.take(i + 1).drop_last() =~= summaries@.take(i as int)); }
        if str_equal(s.scene.as_str(), scene) {
            let label = run_name(s.solver.as_str(), s.scene.as_str(), s.resolution);
            let ghost prev = items@;
            items.push((label, s.commit.clone()));
            proof { assert(pair_views(items@) =~= pair_views(prev).push((label@, s.commit@))); }
        }
        i = i + 1;
    }
    proof { assert(summaries@.take(summaries.len() as int) =~= summaries@); }
    items
}

/// The groups of commits and scene names as characters.
pub open spec fn group_views(commits: Seq<String>, names: Seq<Vec<String>>) -> Seq<(Seq<char>, Seq<Seq<char>>)> {
    Seq::new(commits.len(), |i: int| (commits[i]@, views(names[i]@)))
}

proof fn lemma_group_index(g: Seq<(Seq<char>, Seq<Seq<char>>)>, c: Seq<char>, j: int)
    requires
        0 <= j <= g.len(),
        forall|k: int| 0 <= k < j ==> #[trigger] g[k].0 != c,
        j < g.len() ==> g[j].0 == c,
    ensures
        group_index(g, c) == (if j < g.len() { j } else { -1 }),
    decreases g.len(),
{
    if g.len() > 0 && j > 0 {
        let t = g.drop_first();
        assert forall|k: int| 0 <= k < j - 1 implies #[trigger] t[k].0 != c by {
            assert(t[k] == g[k + 1]);
        }
        lemma_group_index(t, c, j - 1);
    }
}

/// `{runs} at N = {frame}`.
pub open spec fn point_text(p: PointRuns) -> Seq<char> {
    decimal(p.runs as nat) + seq![' ', 'a', 't', ' ', 'N', ' ', '=', ' '] + decimal(p.frame as nat)
}

/// The index of the first run at or after `from` by `solver`.
pub open spec fn first_by_solver(runs: Seq<LatencyKey>, solver: Seq<char>, from: int) -> Option<int>
    decreases runs.len() - from,
{
    if from < 0 || from >= runs.len() {
        None
    } else if runs[from].solver@ == solver {
        Some(from)
    } else {
        first_by_solver(runs, solver, from + 1)
    }
}

/// Each point of the first run by `solver`, e.g. "5 at N = 1, 5 at N = 24";
/// empty when `solver` has no run.
pub open spec fn spec_runs_per_point(runs: Seq<LatencyKey>, solver: Seq<char>) -> Seq<char> {
    match first_by_solver(runs, solver, 0) {
        None => Seq::empty(),
        Some(i) => join(runs[i].points@.map_values(|p: PointRuns| point_text(p)), seq![',', ' ']),
    }
}

/// A solver's runs per latency point, from the first summary by that
/// solver: the runs are the same in every scene.
pub fn runs_per_point(summaries: &[LatencyKey], solver: &str) -> (s: String)
    ensures
        s@ == spec_runs_per_point(summaries@, solver@),
{
    let mut i: usize = 0;
    while i < summaries.len()
        invariant
            i <= summaries.len(),
            first_by_solver(summaries@, solver@, 0) == first_by_solver(summaries@, solver@, i as int),
        decreases summaries.len() - i,
    {
        if str_equal(summaries[i].solver.as_str(), solver) {
            let points = &summaries[i].points;
            let mut parts: Vec<String> = Vec::new();
            let mut k: usize = 0;
            while k < points.len()
                invariant
                    k <= points.len(),
                    views(parts@) == points@.take(k as int).map_values(|p: PointRuns| point_text(p)),
                decreases points.len() - k,
            {
                let p = points[k];
                let mut t = decimal_string(p.runs);
                t.append(" at N = ");
                let f = decimal_string(p.frame as u64);
                t.append(f.as_str());
                proof {
                    reveal_strlit(" at N = ");
                    assert(t@ =~= point_text(p));
                }
                let ghost prev = parts@;
                parts.push(t);
                proof {
                    assert(views(parts@) =~= views(prev).push(t@));
                    assert(points@.take(k + 1).map_values(|p: PointRuns| point_text(p)) =~= points@.take(
                        k as int,
                    ).map_values(|p: PointRuns| point_text(p)).push(point_text(p)));
                }
                k = k + 1;
            }
            proof {
                assert(points@.take(points.len() as int) =~= points@);
                reveal_strlit(", ");
                assert(", "@ =~= seq![',', ' ']);
            }
            return join_strings(&parts, ", ");
        }
        i = i + 1;
    }
    String::new()
}

/// `parts` joined by `sep`.
fn join_strings(parts: &Vec<String>, sep: &str) -> (s: String)
    ensures
        s@ == join(views(parts@), sep@),
{
    let mut s = String::new();
    let mut i: usize = 0;
    while i < parts.len()
        invariant
            i <= parts.len(),
            s@ == join(views(parts@).take(i as int), sep@),
        decreases parts.len() - i,
    {
        proof {
            let t = views(parts@).take(i + 1);
            assert(t.drop_last() =~= views(parts@).take(i as int));
            if i == 0 {
                assert(join(views(parts@).take(0), sep@) =~= Seq::empty());
            }
        }
        if i > 0 {
            s.append(sep);
        }
        s.append(parts[i].as_str());
        proof {
            if i == 0 {
                assert(s@ =~= views(parts@).take(1)[0]);
            }
        }
        i = i + 1;
    }
    proof { assert(views(parts@).take(parts.len() as int) =~= views(parts@)); }
    s
}

/// `{commit} (`a`, `b`)`.
fn group_string(commit: &String, names: &Vec<String>) -> (s: String)
    ensures
        s@ == group_text((commit@, views(names@))),
{
    let mut quoted_names: Vec<String> = Vec::new();
    let mut i: usize = 0;
    proof { reveal_strlit("`"); }
    while i < names.len()
        invariant
            i <= names.len(),
            views(quoted_names@) == views(names@).take(i as int).map_values(|n: Seq<char>| quoted(n)),
        decreases names.len() - i,
    {
        let mut q = owned("`");
        q.append(names[i].as_str());
        q.append("`");
        proof {
            reveal_strlit("`");
            assert(q@ =~= quoted(names@[i as int]@));
        }
        let ghost prev = quoted_names@;
        quoted_names.push(q);
        proof {
            assert(views(quoted_names@) =~= views(prev).push(q@));
            assert(views(names@).take(i + 1).map_values(|n: Seq<char>| quoted(n)) =~= views(names@).take(i as int).map_values(|n: Seq<char>| quoted(n)).push(quoted(names@[i as int]@)));
        }
        i = i + 1;
    }
    proof { assert(views(names@).take(names.len() as int) =~= views(names@)); }
    let mut s = commit.clone();
    proof { reveal_strlit(" ("); reveal_strlit(", "); reveal_strlit(")"); }
    s.append(" (");
    let inner = join_strings(&quoted_names, ", ");
    s.append(inner.as_str());
    s.append(")");
    proof {
        assert(" ("@ =~= seq![' ', '(']);
        assert(", "@ =~= seq![',', ' ']);
        assert(")"@ =~= seq![')']);
        assert(views(quoted_names@) =~= views(names@).map_values(|n: Seq<char>| quoted(n)));
    }
    s
}

/// The commit each scene's summaries were built from: one commit when
/// every scene shares it, or else each commit followed by its scenes, in
/// table order, e.g. "31cfeb2 (`plume`, `plume_collider`, `plume_wind`);
/// abc1234 (`fire`)". Each scene must come from one commit, and the lines
/// naming every summary of each scene that mixes commits, sorted, are the
/// error. Scenes may differ, since a scene added later is run later.
pub fn scene_commits(summaries: &[RunKey]) -> (r: Result<String, Vec<String>>)
    ensures
        result_view(r) == spec_scene_commits(summaries@),
{
    let mut scenes = table_scene_strings();
    let mut i: usize = 0;
    while i < summaries.len()
        invariant
            i <= summaries.len(),
            views(scenes@) == scene_order(summaries@.take(i as int)),
        decreases summaries.len() - i,
    {
        proof { assert(summaries@.take(i + 1).drop_last() =~= summaries@.take(i as int)); }
        if !contains_text(&scenes, summaries[i].scene.as_str()) {
            let ghost prev = scenes@;
            scenes.push(summaries[i].scene.clone());
            proof { assert(views(scenes@) =~= views(prev).push(summaries@[i as int].scene@)); }
        }
        i = i + 1;
    }
    proof { assert(summaries@.take(summaries.len() as int) =~= summaries@); }
    let ghost order = views(scenes@);

    let mut commits: Vec<String> = Vec::new();
    let mut names: Vec<Vec<String>> = Vec::new();
    let mut errors: Vec<String> = Vec::new();
    let mut t: usize = 0;
    while t < scenes.len()
        invariant
            order == views(scenes@),
            order == scene_order(summaries@),
            t <= scenes.len(),
            commits.len() == names.len(),
            group_views(commits@, names@) == commit_groups(summaries@, order.take(t as int)),
            views(errors@) == mixed_lines(summaries@, order.take(t as int)),
        decreases scenes.len() - t,
    {
        let scene = &scenes[t];
        let items = scene_items(summaries, scene.as_str());
        let ghost iv = pair_views(items@);
        let ghost g0 = group_views(commits@, names@);
        proof {
            assert(order.take(t + 1).drop_last() =~= order.take(t as int));
            assert(order.take(t + 1).last() == scene@);
        }
        if items.len() > 0 {
            let (same, first) = value_agreement(&items);
            if same {
                let mut j: usize = 0;
                while j < commits.len() && !(commits[j] == first)
                    invariant
                        j <= commits.len(),
                        commits.len() == names.len(),
                        g0 == group_views(commits@, names@),
                        forall|k: int| 0 <= k < j ==> #[trigger] g0[k].0 != first@,
                    decreases commits.len() - j,
                {
                    j = j + 1;
                }
                proof { lemma_group_index(g0, first@, j as int); }
                if j < commits.len() {
                    let ghost before = names@;
                    let ghost inner = names@[j as int]@;
                    names[j].push(scene.clone());
                    proof {
                        assert(views(names@[j as int]@) =~= views(inner).push(scene@));
                        assert(group_views(commits@, names@) =~= g0.update(j as int, (first@, g0[j as int].1.push(scene@))));
                    }
                } else {
                    let ghost cprev = commits@;
                    let ghost nprev = names@;
                    commits.push(first);
                    names.push(vec![scene.clone()]);
                    proof {
                        assert(views(names@[names.len() - 1]@) =~= seq![scene@]);
                        assert(group_views(commits@, names@) =~= g0.push((first@, seq![scene@])));
                    }
                }
            } else {
                let mut lines = value_line_list(&items);
                let ghost eprev = views(errors@);
                let ghost lv = views(lines@);
                errors.append(&mut lines);
                proof { assert(views(errors@) =~= eprev + lv); }
            }
        }
        t = t + 1;
    }
    proof { assert(order.take(scenes.len() as int) =~= order); }
    if errors.len() > 0 {
        return Err(sort_lines(errors));
    }
    if commits.len() == 0 {
        return Ok(String::new());
    }
    if commits.len() == 1 {
        return Ok(commits[0].clone());
    }
    let mut parts: Vec<String> = Vec::new();
    let mut k: usize = 0;
    let ghost g = group_views(commits@, names@);
    while k < commits.len()
        invariant
            k <= commits.len(),
            commits.len() == names.len(),
            g == group_views(commits@, names@),
            views(parts@) == g.take(k as int).map_values(|x: (Seq<char>, Seq<Seq<char>>)| group_text(x)),
        decreases commits.len() - k,
    {
        let part = group_string(&commits[k], &names[k]);
        let ghost prev = parts@;
        parts.push(part);
        proof {
            assert(views(parts@) =~= views(prev).push(part@));
            assert(g.take(k + 1).map_values(|x: (Seq<char>, Seq<Seq<char>>)| group_text(x)) =~= g.take(k as int).map_values(|x: (Seq<char>, Seq<Seq<char>>)| group_text(x)).push(group_text(g[k as int])));
        }
        k = k + 1;
    }
    proof { assert(g.take(commits.len() as int) =~= g); }
    proof {
        reveal_strlit("; ");
        assert("; "@ =~= seq![';', ' ']);
        assert(views(parts@) =~= g.map_values(|x: (Seq<char>, Seq<Seq<char>>)| group_text(x)));
        assert(spec_scene_commits(summaries@) == Ok::<Seq<char>, Seq<Seq<char>>>(groups_text(g)));
    }
    Ok(join_strings(&parts, "; "))
}

} // verus!

verus! {

/// Every (solver, scene, resolution) the results table needs, solver
/// first, then scene, then resolution.
pub open spec fn table_runs() -> Seq<(Seq<char>, Seq<char>, u32)> {
    Seq::new(24, |i: int| (solvers()[i / 12], table_scenes()[(i / 3) % 4], resolutions()[i % 3]))
}

/// Every (solver, scene) the latency table needs, solver first.
pub open spec fn latency_runs() -> Seq<(Seq<char>, Seq<char>, u32)> {
    Seq::new(6, |i: int| (solvers()[i / 3], latency_scenes()[i % 3], LATENCY_RESOLUTION))
}

/// Whether some summary is of `solver`'s run of `scene` at `resolution`.
pub open spec fn has_run(runs: Seq<RunKey>, want: (Seq<char>, Seq<char>, u32)) -> bool {
    exists|i: int| 0 <= i < runs.len() && #[trigger] runs[i].solver@ == want.0 && runs[i].scene@ == want.1
        && runs[i].resolution == want.2
}

pub open spec fn has_latency_run(runs: Seq<LatencyKey>, want: (Seq<char>, Seq<char>, u32)) -> bool {
    exists|i: int| 0 <= i < runs.len() && #[trigger] runs[i].solver@ == want.0 && runs[i].scene@ == want.1
        && runs[i].resolution == want.2
}

/// The names of the wanted runs no summary is of, in order.
pub open spec fn absent_runs(runs: Seq<RunKey>, wanted: Seq<(Seq<char>, Seq<char>, u32)>) -> Seq<Seq<char>>
    decreases wanted.len(),
{
    if wanted.len() == 0 {
        Seq::empty()
    } else {
        let rest = absent_runs(runs, wanted.drop_last());
        let w = wanted.last();
        if has_run(runs, w) { rest } else { rest.push(run_stem(w.0, w.1, w.2)) }
    }
}

/// The latency names of the wanted runs no latency summary is of, in order.
pub open spec fn absent_latency_runs(runs: Seq<LatencyKey>, wanted: Seq<(Seq<char>, Seq<char>, u32)>) -> Seq<Seq<char>>
    decreases wanted.len(),
{
    if wanted.len() == 0 {
        Seq::empty()
    } else {
        let rest = absent_latency_runs(runs, wanted.drop_last());
        let w = wanted.last();
        if has_latency_run(runs, w) { rest } else { rest.push(latency_stem(w.0, w.1, w.2)) }
    }
}

/// Nothing is missing exactly when every wanted run has a summary: the
/// results table is written whole or not at all.
pub proof fn lemma_nothing_absent_iff_complete(runs: Seq<RunKey>, wanted: Seq<(Seq<char>, Seq<char>, u32)>)
    ensures
        absent_runs(runs, wanted).len() == 0 <==> forall|i: int| 0 <= i < wanted.len() ==> has_run(runs, #[trigger] wanted[i]),
    decreases wanted.len(),
{
    if wanted.len() > 0 {
        let init = wanted.drop_last();
        lemma_nothing_absent_iff_complete(runs, init);
        let w = wanted.last();
        assert(w == wanted[wanted.len() - 1]);
        assert forall|i: int| 0 <= i < init.len() implies #[trigger] init[i] == wanted[i] by {}
        if absent_runs(runs, wanted).len() == 0 {
            assert(absent_runs(runs, init).len() == 0);
            assert(has_run(runs, w));
            assert forall|i: int| 0 <= i < wanted.len() implies has_run(runs, #[trigger] wanted[i]) by {
                if i < init.len() {
                    assert(init[i] == wanted[i]);
                    assert(has_run(runs, init[i]));
                }
            }
        }
        if forall|i: int| 0 <= i < wanted.len() ==> has_run(runs, #[trigger] wanted[i]) {
            assert forall|i: int| 0 <= i < init.len() implies has_run(runs, #[trigger] init[i]) by {
                assert(has_run(runs, wanted[i]));
            }
            assert(has_run(runs, wanted[wanted.len() - 1]));
        }
    }
}

/// The same for the latency table.
pub proof fn lemma_no_latency_absent_iff_complete(
    runs: Seq<LatencyKey>,
    wanted: Seq<(Seq<char>, Seq<char>, u32)>,
)
    ensures
        absent_latency_runs(runs, wanted).len() == 0 <==> forall|i: int| 0 <= i < wanted.len() ==> has_latency_run(runs, #[trigger] wanted[i]),
    decreases wanted.len(),
{
    if wanted.len() > 0 {
        let init = wanted.drop_last();
        lemma_no_latency_absent_iff_complete(runs, init);
        let w = wanted.last();
        assert(w == wanted[wanted.len() - 1]);
        assert forall|i: int| 0 <= i < init.len() implies #[trigger] init[i] == wanted[i] by {}
        if absent_latency_runs(runs, wanted).len() == 0 {
            assert(absent_latency_runs(runs, init).len() == 0);
            assert(has_latency_run(runs, w));
            assert forall|i: int| 0 <= i < wanted.len() implies has_latency_run(runs, #[trigger] wanted[i]) by {
                if i < init.len() {
                    assert(init[i] == wanted[i]);
                    assert(has_latency_run(runs, init[i]));
                }
            }
        }
        if forall|i: int| 0 <= i < wanted.len() ==> has_latency_run(runs, #[trigger] wanted[i]) {
            assert forall|i: int| 0 <= i < init.len() implies has_latency_run(runs, #[trigger] init[i]) by {
                assert(has_latency_run(runs, wanted[i]));
            }
            assert(has_latency_run(runs, wanted[wanted.len() - 1]));
        }
    }
}

fn solver_name(i: usize) -> (s: &'static str)
    requires
        i < 2,
    ensures
        s@ == solvers()[i as int],
{
    if i == 0 { "ember" } else { "mantaflow" }
}

fn table_scene_name(i: usize) -> (s: &'static str)
    requires
        i < 4,
    ensures
        s@ == table_scenes()[i as int],
{
    if i == 0 { "plume" } else if i == 1 { "plume_collider" } else if i == 2 { "plume_wind" } else { "fire" }
}

fn resolution_at(i: usize) -> (r: u32)
    requires
        i < 3,
    ensures
        r == resolutions()[i as int],
{
    if i == 0 { 64 } else if i == 1 { 128 } else { 256 }
}

fn find_run(summaries: &[RunKey], solver: &str, scene: &str, resolution: u32) -> (found: bool)
    ensures
        found == has_run(summaries@, (solver@, scene@, resolution)),
{
    let mut i: usize = 0;
    while i < summaries.len()
        invariant
            i <= summaries.len(),
            forall|j: int| 0 <= j < i ==> !(#[trigger] summaries@[j].solver@ == solver@ && summaries@[j].scene@ == scene@
                && summaries@[j].resolution == resolution),
        decreases summaries.len() - i,
    {
        let s = &summaries[i];
        if str_equal(s.solver.as_str(), solver) && str_equal(s.scene.as_str(), scene) && s.resolution == resolution {
            return true;
        }
        i = i + 1;
    }
    false
}

fn find_latency_run(summaries: &[LatencyKey], solver: &str, scene: &str, resolution: u32) -> (found: bool)
    ensures
        found == has_latency_run(summaries@, (solver@, scene@, resolution)),
{
    let mut i: usize = 0;
    while i < summaries.len()
        invariant
            i <= summaries.len(),
            forall|j: int| 0 <= j < i ==> !(#[trigger] summaries@[j].solver@ == solver@ && summaries@[j].scene@ == scene@
                && summaries@[j].resolution == resolution),
        decreases summaries.len() - i,
    {
        let s = &summaries[i];
        if str_equal(s.solver.as_str(), solver) && str_equal(s.scene.as_str(), scene) && s.resolution == resolution {
            return true;
        }
        i = i + 1;
    }
    false
}

/// The runs the results table lacks, named `{solver}-{scene}-{resolution}`
/// (the stem of the run's summary file), solver first, then scene, then
/// resolution. The table is written only when this is empty: never a
/// partial table.
pub fn missing_runs(summaries: &[RunKey]) -> (missing: Vec<String>)
    ensures
        views(missing@) == absent_runs(summaries@, table_runs()),
{
    let mut missing: Vec<String> = Vec::new();
    let mut i: usize = 0;
    while i < 24
        invariant
            i <= 24,
            views(missing@) == absent_runs(summaries@, table_runs().take(i as int)),
        decreases 24 - i,
    {
        let solver = solver_name(i / 12);
        let scene = table_scene_name((i / 3) % 4);
        let res = resolution_at(i % 3);
        proof {
            assert(table_runs().take(i + 1).drop_last() =~= table_runs().take(i as int));
            assert(table_runs().take(i + 1).last() == (solver@, scene@, res));
        }
        if !find_run(summaries, solver, scene, res) {
            let name = run_name(solver, scene, res);
            let ghost prev = missing@;
            missing.push(name);
            proof { assert(views(missing@) =~= views(prev).push(name@)); }
        }
        i = i + 1;
    }
    proof { assert(table_runs().take(24) =~= table_runs()); }
    missing
}

/// The runs the latency table lacks at `LATENCY_RESOLUTION`, named
/// `latency-{solver}-{scene}-{resolution}`, solver first. The table is
/// written only when this is empty.
pub fn missing_latency_runs(summaries: &[LatencyKey]) -> (missing: Vec<String>)
    ensures
        views(missing@) == absent_latency_runs(summaries@, latency_runs()),
{
    let mut missing: Vec<String> = Vec::new();
    let mut i: usize = 0;
    while i < 6
        invariant
            i <= 6,
            views(missing@) == absent_latency_runs(summaries@, latency_runs().take(i as int)),
        decreases 6 - i,
    {
        let solver = solver_name(i / 3);
        let scene = table_scene_name(i % 3);
        proof {
            assert(latency_runs().take(i + 1).drop_last() =~= latency_runs().take(i as int));
            assert(latency_runs().take(i + 1).last() == (solver@, scene@, LATENCY_RESOLUTION));
        }
        if !find_latency_run(summaries, solver, scene, LATENCY_RESOLUTION) {
            let name = latency_name(solver, scene, LATENCY_RESOLUTION);
            let ghost prev = missing@;
            missing.push(name);
            proof { assert(views(missing@) =~= views(prev).push(name@)); }
        }
        i = i + 1;
    }
    proof { assert(latency_runs().take(6) =~= latency_runs()); }
    missing
}

} // verus!

verus! {

proof fn lemma_scene_runs_empty(runs: Seq<RunKey>, scene: Seq<char>)
    ensures
        scene_runs(runs, scene).len() == 0 <==> forall|i: int| 0 <= i < runs.len() ==> (#[trigger] runs[i]).scene@ != scene,
    decreases runs.len(),
{
    if runs.len() > 0 {
        let init = runs.drop_last();
        lemma_scene_runs_empty(init, scene);
        assert forall|i: int| 0 <= i < init.len() implies #[trigger] init[i] == runs[i] by {}
        assert(runs.last() == runs[runs.len() - 1]);
        if forall|i: int| 0 <= i < runs.len() ==> (#[trigger] runs[i]).scene@ != scene {
            assert forall|i: int| 0 <= i < init.len() implies (#[trigger] init[i]).scene@ != scene by {
                assert(runs[i].scene@ != scene);
            }
            assert(runs[runs.len() - 1].scene@ != scene);
        }
        if scene_runs(runs, scene).len() == 0 {
            assert(scene_runs(init, scene).len() == 0);
            assert(runs.last().scene@ != scene);
            assert forall|i: int| 0 <= i < runs.len() implies (#[trigger] runs[i]).scene@ != scene by {
                if i < init.len() {
                    assert(init[i].scene@ != scene);
                }
            }
        }
    }
}

proof fn lemma_scene_order_has(runs: Seq<RunKey>, i: int)
    requires
        0 <= i < runs.len(),
    ensures
        scene_order(runs).contains(runs[i].scene@),
    decreases runs.len(),
{
    let init = runs.drop_last();
    if i < runs.len() - 1 {
        lemma_scene_order_has(init, i);
        assert(init[i] == runs[i]);
        let prev = scene_order(init);
        let j = choose|j: int| 0 <= j < prev.len() && prev[j] == runs[i].scene@;
        let now = scene_order(runs);
        if !prev.contains(runs.last().scene@) {
            assert(now[j] == prev[j]);
        }
    } else {
        let prev = scene_order(init);
        let now = scene_order(runs);
        if !prev.contains(runs.last().scene@) {
            assert(now[now.len() - 1] == runs.last().scene@);
        }
    }
}

proof fn lemma_mixed_nonempty(runs: Seq<RunKey>, scenes: Seq<Seq<char>>)
    ensures
        mixed_lines(runs, scenes).len() > 0 <==> exists|k: int| 0 <= k < scenes.len() && mixes_commits(runs, #[trigger] scenes[k]),
    decreases scenes.len(),
{
    if scenes.len() > 0 {
        let init = scenes.drop_last();
        lemma_mixed_nonempty(runs, init);
        let last = scenes.len() - 1;
        assert(scenes.last() == scenes[last]);
        assert forall|k: int| 0 <= k < init.len() implies #[trigger] init[k] == scenes[k] by {}
        if exists|k: int| 0 <= k < scenes.len() && mixes_commits(runs, #[trigger] scenes[k]) {
            let k = choose|k: int| 0 <= k < scenes.len() && mixes_commits(runs, #[trigger] scenes[k]);
            if k < last {
                assert(mixes_commits(runs, init[k]));
            }
        }
        if exists|k: int| 0 <= k < init.len() && mixes_commits(runs, #[trigger] init[k]) {
            let k = choose|k: int| 0 <= k < init.len() && mixes_commits(runs, #[trigger] init[k]);
            assert(mixes_commits(runs, scenes[k]));
        }
    }
}

/// `scene_commits` refuses exactly when the summaries of some scene name
/// more than one commit.
pub proof fn lemma_scene_commits_refuses_mixed(runs: Seq<RunKey>)
    ensures
        spec_scene_commits(runs) is Err <==> exists|i: int| 0 <= i < runs.len() && mixes_commits(runs, (#[trigger] runs[i]).scene@),
{
    let scenes = scene_order(runs);
    lemma_mixed_nonempty(runs, scenes);
    if exists|k: int| 0 <= k < scenes.len() && mixes_commits(runs, #[trigger] scenes[k]) {
        let k = choose|k: int| 0 <= k < scenes.len() && mixes_commits(runs, #[trigger] scenes[k]);
        lemma_scene_runs_empty(runs, scenes[k]);
        let i = choose|i: int| 0 <= i < runs.len() && !((#[trigger] runs[i]).scene@ != scenes[k]);
        assert(mixes_commits(runs, runs[i].scene@));
    }
    if exists|i: int| 0 <= i < runs.len() && mixes_commits(runs, (#[trigger] runs[i]).scene@) {
        let i = choose|i: int| 0 <= i < runs.len() && mixes_commits(runs, (#[trigger] runs[i]).scene@);
        lemma_scene_order_has(runs, i);
        let k = choose|k: int| 0 <= k < scenes.len() && scenes[k] == runs[i].scene@;
        assert(mixes_commits(runs, scenes[k]));
    }
}

proof fn lemma_scene_runs_commit(runs: Seq<RunKey>, scene: Seq<char>, c: Seq<char>)
    requires
        forall|i: int| 0 <= i < runs.len() ==> (#[trigger] runs[i]).commit@ == c,
    ensures
        forall|j: int| 0 <= j < scene_runs(runs, scene).len() ==> (#[trigger] scene_runs(runs, scene)[j]).1 == c,
    decreases runs.len(),
{
    if runs.len() > 0 {
        let init = runs.drop_last();
        assert forall|i: int| 0 <= i < init.len() implies (#[trigger] init[i]).commit@ == c by {
            assert(init[i] == runs[i]);
        }
        lemma_scene_runs_commit(init, scene, c);
        assert(runs.last() == runs[runs.len() - 1]);
        let prev = scene_runs(init, scene);
        let now = scene_runs(runs, scene);
        assert forall|j: int| 0 <= j < now.len() implies (#[trigger] now[j]).1 == c by {
            if j < prev.len() {
                assert(now[j] == prev[j]);
            }
        }
    }
}

proof fn lemma_one_commit_groups(runs: Seq<RunKey>, scenes: Seq<Seq<char>>, c: Seq<char>)
    requires
        forall|i: int| 0 <= i < runs.len() ==> (#[trigger] runs[i]).commit@ == c,
    ensures
        commit_groups(runs, scenes).len() == (if exists|k: int| 0 <= k < scenes.len() && scene_runs(runs, #[trigger] scenes[k]).len() > 0 { 1int } else { 0 }),
        commit_groups(runs, scenes).len() == 1 ==> commit_groups(runs, scenes)[0].0 == c,
        forall|k: int| 0 <= k < scenes.len() ==> !mixes_commits(runs, #[trigger] scenes[k]),
    decreases scenes.len(),
{
    if scenes.len() > 0 {
        let init = scenes.drop_last();
        lemma_one_commit_groups(runs, init, c);
        let last = scenes.len() - 1;
        assert(scenes.last() == scenes[last]);
        assert forall|k: int| 0 <= k < init.len() implies #[trigger] init[k] == scenes[k] by {}
        let items = scene_runs(runs, scenes[last]);
        lemma_scene_runs_commit(runs, scenes[last], c);
        let g = commit_groups(runs, init);
        if items.len() > 0 {
            assert(items[0].1 == c);
            assert(shares_value(items));
            assert(first_value(items) == c);
            if g.len() == 1 {
                assert(group_index(g, c) == 0);
            } else {
                assert(group_index(g, c) == -1);
            }
            assert(scene_runs(runs, scenes[last]).len() > 0);
        }
        assert forall|k: int| 0 <= k < scenes.len() implies !mixes_commits(runs, #[trigger] scenes[k]) by {
            if k < last {
                assert(!mixes_commits(runs, init[k]));
            } else {
                if items.len() > 0 {
                    assert(items[0].1 == c);
                }
            }
        }
        if exists|k: int| 0 <= k < scenes.len() && scene_runs(runs, #[trigger] scenes[k]).len() > 0 {
            let k = choose|k: int| 0 <= k < scenes.len() && scene_runs(runs, #[trigger] scenes[k]).len() > 0;
            if k < last {
                assert(scene_runs(runs, init[k]).len() > 0);
            }
        }
        if exists|k: int| 0 <= k < init.len() && scene_runs(runs, #[trigger] init[k]).len() > 0 {
            let k = choose|k: int| 0 <= k < init.len() && scene_runs(runs, #[trigger] init[k]).len() > 0;
            assert(scene_runs(runs, scenes[k]).len() > 0);
        }
    }
}

/// When every summary names the same commit, `scene_commits` gives that
/// commit, or nothing when there are no summaries.
pub proof fn lemma_scene_commits_one_commit(runs: Seq<RunKey>, c: Seq<char>)
    requires
        forall|i: int| 0 <= i < runs.len() ==> (#[trigger] runs[i]).commit@ == c,
    ensures
        spec_scene_commits(runs) == (if runs.len() == 0 {
            Ok::<Seq<char>, Seq<Seq<char>>>(Seq::empty())
        } else {
            Ok(c)
        }),
{
    let scenes = scene_order(runs);
    lemma_one_commit_groups(runs, scenes, c);
    lemma_mixed_nonempty(runs, scenes);
    if runs.len() > 0 {
        lemma_scene_order_has(runs, 0);
        let k = choose|k: int| 0 <= k < scenes.len() && scenes[k] == runs[0].scene@;
        lemma_scene_runs_empty(runs, scenes[k]);
        assert(runs[0].scene@ == scenes[k]);
        assert(scene_runs(runs, scenes[k]).len() > 0);
    } else {
        assert forall|k: int| 0 <= k < scenes.len() implies scene_runs(runs, #[trigger] scenes[k]).len() == 0 by {}
    }
}

/// When `scene_commits` refuses, its lines are the lines of every mixing
/// scene's summaries, each once, sorted.
pub proof fn lemma_scene_commits_lines_sorted(runs: Seq<RunKey>)
    ensures
        spec_scene_commits(runs) matches Err(e) ==> {
            &&& vstd::relations::sorted_by(e, lex_order())
            &&& e.to_multiset() == mixed_lines(runs, scene_order(runs)).to_multiset()
        },
{
    lemma_lex_total_ordering();
    mixed_lines(runs, scene_order(runs)).lemma_sort_by_ensures(lex_order());
}

} // verus!
