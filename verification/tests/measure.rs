use dx_cli::config::{strategies_for, Strategy};
use dx_cli::fffs::{
    fffs_strategies, finder_size_result, get_fffs, get_osa_folder_size, measure_file,
    sum_file_sizes, FallbackAction, PathResult, StrategyFallback,
};
use dx_cli::iterator::sorted_by_size;

fn path() -> Vec<u8> {
    b"/Users/me/Music".to_vec()
}

fn run(action: FallbackAction) -> Strategy {
    match action {
        FallbackAction::Run(s) => s,
        FallbackAction::Finish(r) => panic!("finished early: {:?}", r),
    }
}

fn finish(action: FallbackAction) -> PathResult {
    match action {
        FallbackAction::Finish(r) => r,
        FallbackAction::Run(s) => panic!("still running {:?}", s),
    }
}

#[test]
fn the_first_strategy_that_finds_a_size_wins() {
    let mut f = StrategyFallback::new(&path(), vec![Strategy::Aev, Strategy::Dstore, Strategy::Live]);
    assert_eq!(run(f.start()), Strategy::Aev);
    assert_eq!(run(f.step(PathResult::new(&path()), None)), Strategy::Dstore);
    let r = finish(f.step(PathResult::new(&path()), Some(4096)));
    assert_eq!(r.size, 4096);
    assert_eq!(r.strategy, Some(Strategy::Dstore));
    assert_eq!(r.error_message, None);
    assert_eq!(r.path, path());
}

#[test]
fn when_every_strategy_fails_no_strategy_worked() {
    let mut f = StrategyFallback::new(&path(), vec![Strategy::Live]);
    assert_eq!(run(f.start()), Strategy::Live);
    let r = finish(f.step(PathResult::new(&path()), None));
    assert_eq!(r.size, 0);
    assert_eq!(r.duration_nanos, 0);
    assert_eq!(r.strategy, None);
    assert_eq!(r.error_message, Some("No strategy worked".to_string()));
    assert_eq!(get_fffs(r), Err("No strategy worked".to_string()));
}

#[test]
fn no_strategy_at_all_fails_at_once() {
    let mut f = StrategyFallback::new(&path(), vec![]);
    let r = finish(f.start());
    assert_eq!(r.error_message, Some("No strategy worked".to_string()));
}

#[test]
fn a_finished_measure_gives_its_size() {
    let r = PathResult::new(&path()).success(77, Strategy::Live);
    assert_eq!(get_fffs(r.clone()), Ok(77));
    let e = r.error("boom".to_string());
    assert_eq!(e.size, 77);
    assert_eq!(get_fffs(e), Err("boom".to_string()));
}

#[test]
fn the_library_measure_tries_dstore_first() {
    assert_eq!(fffs_strategies(), vec![Strategy::Dstore, Strategy::Aev, Strategy::Live]);
}

#[test]
fn strategies_come_from_the_request_then_the_environment() {
    assert_eq!(strategies_for(vec![Strategy::Osa], Some("live".to_string())), vec![Strategy::Osa]);
    assert_eq!(strategies_for(vec![], Some("aev".to_string())), vec![Strategy::Aev]);
    assert_eq!(strategies_for(vec![], Some("dstore".to_string())), vec![Strategy::Dstore]);
    assert_eq!(strategies_for(vec![], Some("live".to_string())), vec![Strategy::Live]);
    let default = vec![Strategy::Aev, Strategy::Dstore, Strategy::Live];
    assert_eq!(strategies_for(vec![], Some("LIVE".to_string())), default);
    assert_eq!(strategies_for(vec![], None), default);
}

#[test]
fn finder_answers() {
    assert_eq!(finder_size_result(1234), Ok(1234));
    assert_eq!(finder_size_result(0), Ok(0));
    assert_eq!(
        finder_size_result(-43),
        Err("Error - get_finder_fast_folder_size : -43 ".to_string())
    );
}

#[test]
fn applescript_answers() {
    assert_eq!(get_osa_folder_size("123456".to_string()), Ok(123456));
    assert_eq!(get_osa_folder_size("missing value".to_string()), Err("missing value".to_string()));
}

#[test]
fn file_sizes_add_up() {
    assert_eq!(sum_file_sizes(&vec![]), Some(0));
    assert_eq!(sum_file_sizes(&vec![1, 2, 3]), Some(6));
    assert_eq!(sum_file_sizes(&vec![u64::MAX]), Some(-1));
    assert_eq!(sum_file_sizes(&vec![u64::MAX, 1]), None);
}

#[test]
fn sorting_by_size_is_stable() {
    let p = path();
    let rs = vec![
        PathResult::new(&p).success(30, Strategy::Live),
        PathResult::new(&p).success(10, Strategy::Live),
        PathResult::new(&p).success(30, Strategy::Aev),
        PathResult::new(&p).success(-1, Strategy::Aev),
    ];
    assert_eq!(sorted_by_size(&rs), vec![3, 1, 0, 2]);
    assert_eq!(sorted_by_size(&vec![]), Vec::<usize>::new());
}

#[test]
fn a_file_is_measured_by_a_walk() {
    let r = PathResult::new(&path());
    let ok = measure_file(&r, Ok(12));
    assert_eq!(ok.size, 12);
    assert_eq!(ok.strategy, Some(Strategy::Live));
    assert_eq!(ok.error_message, None);
    let err = measure_file(&r, Err("No such file".to_string()));
    assert_eq!(err.size, 0);
    assert_eq!(err.duration_nanos, 0);
    assert_eq!(err.strategy, None);
    assert_eq!(err.error_message, Some("No such file".to_string()));
    assert_eq!(get_fffs(err), Err("No such file".to_string()));
}
