use elements_ember::report::{
    latency_file_name, missing_latency_runs, missing_runs, one_commit, pressure_label, run_name,
    scene_commits, single_commit, single_latency_blender, single_latency_commit,
    summary_file_name, runs_per_point, LatencyKey, PointRuns, RunKey, RESOLUTIONS, SCENES, SOLVERS,
};
use elements_ember::solver::PressureSolve;

fn run(solver: &str, scene: &str, resolution: u32, commit: &str) -> RunKey {
    RunKey {
        solver: solver.to_owned(),
        scene: scene.to_owned(),
        resolution,
        commit: commit.to_owned(),
    }
}

fn latency(solver: &str, scene: &str, commit: &str, blender: Option<&str>) -> LatencyKey {
    LatencyKey {
        solver: solver.to_owned(),
        scene: scene.to_owned(),
        resolution: 128,
        commit: commit.to_owned(),
        blender: blender.map(str::to_owned),
        points: Vec::new(),
    }
}

#[test]
fn result_files_are_named_by_solver_scene_and_resolution() {
    assert_eq!(summary_file_name("ember", "plume", 128), "ember-plume-128.json");
    assert_eq!(latency_file_name("mantaflow", "plume_wind", 64), "latency-mantaflow-plume_wind-64.json");
    assert_eq!(run_name("ember", "fire", 0), "ember-fire-0");
}

#[test]
fn pressure_solves_are_labelled_with_their_count() {
    assert_eq!(pressure_label(PressureSolve::Mgpcg(4)), "MGPCG ×4");
    assert_eq!(pressure_label(PressureSolve::GaussSeidel(160)), "Gauss–Seidel ×160");
    assert_eq!(pressure_label(PressureSolve::Multigrid(10)), "multigrid V-cycles ×10");
}

#[test]
fn one_shared_commit_is_returned() {
    let runs = [run("ember", "plume", 64, "abc"), run("mantaflow", "plume", 64, "abc")];
    assert_eq!(single_commit(&runs), Ok("abc".to_owned()));
    assert_eq!(single_commit(&[]), Ok(String::new()));
}

#[test]
fn mixed_commits_name_every_summary_sorted() {
    let runs = [run("mantaflow", "plume", 64, "b"), run("ember", "plume", 128, "a")];
    assert_eq!(
        single_commit(&runs),
        Err(vec!["ember-plume-128: a".to_owned(), "mantaflow-plume-64: b".to_owned()])
    );
    let items = vec![("z".to_owned(), "1".to_owned()), ("y".to_owned(), "2".to_owned())];
    assert_eq!(one_commit(items), Err(vec!["y: 2".to_owned(), "z: 1".to_owned()]));
}

#[test]
fn scenes_may_come_from_different_commits() {
    let runs = [
        run("ember", "plume", 64, "31cfeb2"),
        run("mantaflow", "plume_collider", 64, "31cfeb2"),
        run("ember", "plume_wind", 64, "31cfeb2"),
        run("ember", "fire", 64, "abc1234"),
    ];
    assert_eq!(
        scene_commits(&runs),
        Ok("31cfeb2 (`plume`, `plume_collider`, `plume_wind`); abc1234 (`fire`)".to_owned())
    );
    assert_eq!(scene_commits(&runs[..2]), Ok("31cfeb2".to_owned()));
    assert_eq!(scene_commits(&[]), Ok(String::new()));
}

#[test]
fn a_scene_mixing_commits_is_an_error_naming_its_summaries() {
    let runs = [
        run("ember", "plume", 64, "a"),
        run("mantaflow", "plume", 64, "b"),
        run("ember", "fire", 64, "c"),
        run("ember", "extra", 64, "d"),
        run("mantaflow", "extra", 64, "e"),
    ];
    assert_eq!(
        scene_commits(&runs),
        Err(vec![
            "ember-extra-64: d".to_owned(),
            "ember-plume-64: a".to_owned(),
            "mantaflow-extra-64: e".to_owned(),
            "mantaflow-plume-64: b".to_owned(),
        ])
    );
}

#[test]
fn scenes_outside_the_table_come_last_in_order_of_appearance() {
    let runs = [run("ember", "zeta", 64, "x"), run("ember", "plume", 64, "y"), run("ember", "alpha", 64, "x")];
    assert_eq!(scene_commits(&runs), Ok("y (`plume`); x (`zeta`, `alpha`)".to_owned()));
}

#[test]
fn the_table_lists_every_missing_run() {
    let missing = missing_runs(&[]);
    assert_eq!(missing.len(), SOLVERS.len() * SCENES.len() * RESOLUTIONS.len());
    assert_eq!(missing[0], "ember-plume-64");
    assert_eq!(missing[23], "mantaflow-fire-256");
    let mut all = Vec::new();
    for solver in SOLVERS {
        for scene in SCENES {
            for res in RESOLUTIONS {
                all.push(run(solver, scene, res, "c"));
            }
        }
    }
    assert!(missing_runs(&all).is_empty());
    let partial: Vec<RunKey> = all.into_iter().filter(|r| r.resolution != 256 || r.solver != "ember").collect();
    assert_eq!(
        missing_runs(&partial),
        vec!["ember-plume-256", "ember-plume_collider-256", "ember-plume_wind-256", "ember-fire-256"]
    );
}

#[test]
fn the_latency_table_lists_its_missing_runs() {
    let runs = [latency("ember", "plume", "c", None), latency("mantaflow", "plume_wind", "c", Some("4.2"))];
    assert_eq!(
        missing_latency_runs(&runs),
        vec![
            "latency-ember-plume_collider-128",
            "latency-ember-plume_wind-128",
            "latency-mantaflow-plume-128",
            "latency-mantaflow-plume_collider-128",
        ]
    );
}

#[test]
fn latency_runs_must_share_commit_and_blender() {
    let runs = [
        latency("ember", "plume", "c1", None),
        latency("mantaflow", "plume", "c1", Some("4.2")),
        latency("mantaflow", "plume_wind", "c1", None),
    ];
    assert_eq!(single_latency_commit(&runs), Ok("c1".to_owned()));
    assert_eq!(
        single_latency_blender(&runs),
        Err(vec![
            "latency-mantaflow-plume-128: 4.2".to_owned(),
            "latency-mantaflow-plume_wind-128: unknown".to_owned(),
        ])
    );
    assert_eq!(single_latency_blender(&runs[..2]), Ok("4.2".to_owned()));
    let mixed = [latency("ember", "plume", "c1", None), latency("ember", "plume_wind", "c2", None)];
    assert_eq!(
        single_latency_commit(&mixed),
        Err(vec!["latency-ember-plume-128: c1".to_owned(), "latency-ember-plume_wind-128: c2".to_owned()])
    );
}

#[test]
fn runs_per_point_lists_the_first_run_of_the_solver() {
    let mut a = latency("mantaflow", "plume", "c", Some("4.2"));
    a.points = vec![PointRuns { frame: 1, runs: 3 }, PointRuns { frame: 24, runs: 3 }];
    let mut b = latency("ember", "plume", "c", None);
    b.points = vec![PointRuns { frame: 1, runs: 5 }, PointRuns { frame: 24, runs: 5 }, PointRuns { frame: 120, runs: 10 }];
    let mut c = latency("ember", "plume_wind", "c", None);
    c.points = vec![PointRuns { frame: 1, runs: 7 }];
    let all = [a, b, c];
    assert_eq!(runs_per_point(&all, "ember"), "5 at N = 1, 5 at N = 24, 10 at N = 120");
    assert_eq!(runs_per_point(&all, "mantaflow"), "3 at N = 1, 3 at N = 24");
    assert_eq!(runs_per_point(&all, "houdini"), "");
}
