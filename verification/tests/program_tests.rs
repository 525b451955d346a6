use tvguide::clock::Moment;
use tvguide::program::{grid_window_holds, list_window_holds, Program, ProgramSet};

fn at(hour: u64, minute: u64) -> Moment {
    Moment { year: 2025, month: 1, day: 15, hour, minute }
}

fn prog(channel: u64, name: &str, start: Moment, end: Moment) -> Program {
    Program {
        id: String::from("id"),
        channel,
        name: String::from(name),
        description: String::new(),
        link: String::new(),
        start,
        end,
    }
}

#[test]
fn duplicate_key_keeps_the_first_entry() {
    let mut set = ProgramSet::new();
    set.insert(prog(1, "first", at(6, 0), at(6, 30)));
    set.insert(prog(1, "second", at(6, 0), at(7, 0)));
    assert_eq!(set.len(), 1);
    assert_eq!(set.items[0].name, "first");
    assert_eq!(set.items[0].end.minute, 30);
}

#[test]
fn same_start_different_channel_both_kept() {
    let mut set = ProgramSet::new();
    set.insert(prog(2, "b", at(6, 0), at(6, 30)));
    set.insert(prog(1, "a", at(6, 0), at(6, 30)));
    assert_eq!(set.len(), 2);
    // Ordered by channel within the same start time.
    assert_eq!(set.items[0].channel, 1);
    assert_eq!(set.items[1].channel, 2);
}

#[test]
fn entries_are_held_in_time_order() {
    let mut set = ProgramSet::new();
    set.insert(prog(1, "late", at(9, 0), at(9, 30)));
    set.insert(prog(1, "early", at(6, 0), at(6, 30)));
    set.insert(prog(1, "middle", at(7, 30), at(8, 0)));
    assert_eq!(set.len(), 3);
    assert_eq!(set.items[0].name, "early");
    assert_eq!(set.items[1].name, "middle");
    assert_eq!(set.items[2].name, "late");
}

#[test]
fn entry_ended_before_now_is_excluded_everywhere() {
    let now = at(6, 0);
    let limit = at(8, 0);
    let past = prog(1, "past", at(5, 0), at(5, 59));
    assert!(!list_window_holds(&past, &now, &limit));
    assert!(!grid_window_holds(&past, &now, &limit));
}

#[test]
fn entry_starting_after_window_is_excluded_from_grid() {
    let now = at(6, 0);
    let limit = at(8, 0);
    let late = prog(1, "late", at(8, 1), at(9, 0));
    assert!(!grid_window_holds(&late, &now, &limit));
}

#[test]
fn window_boundaries_are_inclusive() {
    let now = at(6, 0);
    let limit = at(8, 0);
    // Ends exactly now: still listed.
    let ending = prog(1, "ending", at(5, 0), at(6, 0));
    assert!(list_window_holds(&ending, &now, &limit));
    assert!(grid_window_holds(&ending, &now, &limit));
    // Starts exactly at the window's end: still in the grid.
    let starting = prog(1, "starting", at(8, 0), at(9, 0));
    assert!(grid_window_holds(&starting, &now, &limit));
    // Ends after the window: out of the list, still in the grid.
    let overhang = prog(1, "overhang", at(7, 0), at(8, 1));
    assert!(!list_window_holds(&overhang, &now, &limit));
    assert!(grid_window_holds(&overhang, &now, &limit));
}
