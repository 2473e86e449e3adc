use coreshift_engine::game::temporary_file_name;
use coreshift_engine::ordered::OrdSet;
use coreshift_engine::path::EnginePath;
use coreshift_engine::{
    game_targets_from_installed, parse_game_list, parse_managed_game_downscales,
    write_managed_game_downscales, GameList, ManagedGameDownscale, ManagedGameDownscales,
};

fn entry(package: &str, hash: &str, ms: u64) -> ManagedGameDownscale {
    ManagedGameDownscale {
        package: package.to_string(),
        overlay_hash: hash.to_string(),
        applied_ms: ms,
    }
}

#[test]
fn packages_come_in_order() {
    let list = parse_game_list("z.game\na.game\n_m.game\n1.game\nnodots\n");
    assert_eq!(
        list.packages(),
        vec!["_m.game".to_string(), "a.game".to_string(), "z.game".to_string()]
    );
    assert!(!list.is_empty());
    assert_eq!(list.package_set().len(), 3);
    assert_eq!(GameList::from_packages(list.package_set().clone()), list);
}

#[test]
fn carriage_returns_and_tabs_are_white_space() {
    let list = parse_game_list("\tcom.a.game\r\n\u{a0}com.b.game\r\n\r\n#com.c.game\r\n");
    assert_eq!(
        list.packages(),
        vec!["com.a.game".to_string(), "com.b.game".to_string()]
    );
}

#[test]
fn targets_are_games_that_are_installed() {
    let list = parse_game_list("com.a.game\ncom.b.game\n");
    let none = game_targets_from_installed(&list, &OrdSet::new());
    assert!(none.is_empty());
    let all = game_targets_from_installed(&list, list.package_set());
    assert_eq!(all, list);
}

#[test]
fn entries_are_kept_by_package() {
    let mut state = ManagedGameDownscales::default();
    assert!(state.is_empty());
    state.insert(entry("com.b.game", "ab", 1));
    state.insert(entry("com.a.game", "cd", 2));
    state.insert(entry("com.b.game", "ef", 3));
    assert_eq!(state.len(), 2);
    assert_eq!(state.get("com.b.game"), Some(&entry("com.b.game", "ef", 3)));
    assert_eq!(
        state.packages(),
        vec!["com.a.game".to_string(), "com.b.game".to_string()]
    );
    assert_eq!(state.remove("com.b.game"), Some(entry("com.b.game", "ef", 3)));
    assert_eq!(state.remove("com.b.game"), None);
    assert!(!state.contains("com.b.game"));
}

#[test]
fn what_is_written_is_read_back() {
    let mut state = ManagedGameDownscales::default();
    state.insert(entry("com.b.game", "0123456789abcdefABCDEF", u64::MAX));
    state.insert(entry("_c.D_1", "0", 0));
    let text = write_managed_game_downscales(&state);
    assert_eq!(
        text,
        "_c.D_1\t0\t0\ncom.b.game\t0123456789abcdefABCDEF\t18446744073709551615\n"
    );
    assert_eq!(parse_managed_game_downscales(&text), state);
    assert_eq!(write_managed_game_downscales(&ManagedGameDownscales::default()), "");
}

#[test]
fn rows_that_state_no_entry_are_passed_over() {
    let state = parse_managed_game_downscales(
        "com.a.game\t\t1\n\
         com.a.game\txyz\t1\n\
         com.a.game\tab\t-1\n\
         com.a.game\tab\t18446744073709551616\n\
         com.a.game\tab\n\
         com.a.game\tbattery\tab\t1\textra\n\
         com.a.game\teco\tab\t1\n\
         game\tab\t1\n\
         com.b.game\tbattery\tab\t+7\n\
         com.c.game\tab\t1\n\
         com.c.game\tcd\t2\r\n",
    );
    assert_eq!(state.len(), 2);
    assert_eq!(state.get("com.b.game"), Some(&entry("com.b.game", "ab", 7)));
    assert_eq!(state.get("com.c.game"), Some(&entry("com.c.game", "cd", 2)));
}

#[test]
fn a_temporary_file_is_hidden_and_named_after_the_file() {
    let name = |path: &EnginePath| temporary_file_name(path, 42, 1_700_000_000_000_000_000_000);

    assert_eq!(
        name(&EnginePath::new("/data/games/state.tsv")),
        ".state.tsv.tmp.42.1700000000000000000000"
    );
    assert_eq!(
        name(&EnginePath::new("/")),
        ".game_state.tsv.tmp.42.1700000000000000000000"
    );
    assert_eq!(
        name(&EnginePath::from_bytes(vec![b'/', 0xff])),
        ".game_state.tsv.tmp.42.1700000000000000000000"
    );
}
