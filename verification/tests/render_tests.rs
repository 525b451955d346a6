use tvguide::clock::Moment;
use tvguide::program::{Program, ProgramSet};
use tvguide::render::{attribution_line, render_grid, render_list};

fn at(hour: u64, minute: u64) -> Moment {
    Moment { year: 2025, month: 1, day: 15, hour, minute }
}

fn prog(channel: u64, name: &str, id: &str, start: Moment, end: Moment) -> Program {
    Program {
        id: String::from(id),
        channel,
        name: String::from(name),
        description: String::new(),
        link: String::new(),
        start,
        end,
    }
}

fn strings(v: &[String]) -> Vec<&str> {
    v.iter().map(|s| s.as_str()).collect()
}

#[test]
fn attribution_names_the_source() {
    assert_eq!(
        attribution_line(),
        "This TV schedule is got from \u{30c6}\u{30ec}\u{30d3}\u{756a}\u{7d44}\u{8868}G\u{30ac}\u{30a4}\u{30c9}(https://bangumi.org)."
    );
}

#[test]
fn list_groups_entries_under_hour_headers() {
    let channels = vec![String::from("NHK")];
    let mut set = ProgramSet::new();
    set.insert(prog(1, "News", "X1", at(6, 0), at(6, 30)));
    set.insert(prog(1, "Talk", "X2", at(6, 30), at(7, 0)));
    set.insert(prog(1, "Drama", "X3", at(7, 0), at(7, 45)));
    let out = render_list(&channels, &set, &at(6, 0), &at(8, 0));
    let dashes = "-".repeat(44);
    let expected = vec![
        String::new(),
        String::from("01/15 06\u{6642}~"),
        dashes.clone(),
        String::from("06:00~06:30 \u{3010}NHK\u{3011}\tNews [X1]"),
        String::from("06:30~07:00 \u{3010}NHK\u{3011}\tTalk [X2]"),
        String::new(),
        String::from("01/15 07\u{6642}~"),
        dashes.clone(),
        String::from("07:00~07:45 \u{3010}NHK\u{3011}\tDrama [X3]"),
    ];
    assert_eq!(strings(&out), strings(&expected));
}

#[test]
fn list_header_distinguishes_days_with_equal_hours() {
    let channels = vec![String::from("NHK")];
    let mut set = ProgramSet::new();
    set.insert(prog(1, "Today", "X1", at(23, 0), at(23, 30)));
    set.insert(
        prog(
            1,
            "Tomorrow",
            "X2",
            Moment { year: 2025, month: 1, day: 16, hour: 23, minute: 0 },
            Moment { year: 2025, month: 1, day: 16, hour: 23, minute: 30 },
        ),
    );
    let out = render_list(
        &channels,
        &set,
        &at(22, 0),
        &Moment { year: 2025, month: 1, day: 17, hour: 0, minute: 0 },
    );
    let headers: Vec<&String> = out.iter().filter(|l| l.ends_with('~') && l.contains('/')).collect();
    assert_eq!(headers.len(), 2);
    assert_eq!(headers[0], "01/15 23\u{6642}~");
    assert_eq!(headers[1], "01/16 23\u{6642}~");
}

#[test]
fn list_excludes_entries_outside_the_window() {
    let channels = vec![String::from("NHK")];
    let mut set = ProgramSet::new();
    // Ended before the window opens.
    set.insert(prog(1, "Past", "P", at(5, 0), at(5, 59)));
    // Ends after the window closes.
    set.insert(prog(1, "Future", "F", at(7, 30), at(8, 1)));
    set.insert(prog(1, "Now", "N", at(6, 0), at(6, 30)));
    let out = render_list(&channels, &set, &at(6, 0), &at(8, 0));
    let joined = out.join("\n");
    assert!(joined.contains("Now"));
    assert!(!joined.contains("Past"));
    assert!(!joined.contains("Future"));
}

#[test]
fn list_unknown_channel_number_renders_empty_name() {
    let channels = vec![String::from("NHK")];
    let mut set = ProgramSet::new();
    set.insert(prog(5, "Stray", "S", at(6, 0), at(6, 30)));
    let out = render_list(&channels, &set, &at(6, 0), &at(8, 0));
    assert_eq!(out[3], "06:00~06:30 \u{3010}\u{3011}\tStray [S]");
}

#[test]
fn grid_end_to_end_three_channels_three_hours() {
    let channels = vec![String::from("AA"), String::from("BB"), String::from("CC")];
    let mut set = ProgramSet::new();
    set.insert(prog(1, "Alpha", "a", at(6, 10), at(6, 40)));
    set.insert(prog(2, "Beta", "b", at(7, 5), at(7, 35)));
    set.insert(prog(3, "Gamma", "c", at(8, 20), at(8, 50)));
    let out = render_grid(&channels, &set, &at(6, 0), 3);

    // Header, rule, then a three-line block per hour 06..=09.
    assert_eq!(out.len(), 2 + 3 * 4);

    let blank = " ".repeat(20);
    let header = format!(
        "{}\u{2502}{}\u{2502}{}\u{2502}{}\u{2502}",
        " ".repeat(11),
        format!("{}AA{}", " ".repeat(9), " ".repeat(9)),
        format!("{}BB{}", " ".repeat(9), " ".repeat(9)),
        format!("{}CC{}", " ".repeat(9), " ".repeat(9)),
    );
    assert_eq!(out[0], header);

    let rule = format!(
        "{}\u{253c}{}\u{253c}{}\u{253c}{}\u{2524}",
        "\u{2500}".repeat(11),
        "\u{2500}".repeat(20),
        "\u{2500}".repeat(20),
        "\u{2500}".repeat(20),
    );
    assert_eq!(out[1], rule);

    let row = |label: &str, a: &str, b: &str, c: &str| {
        format!(
            "{}\u{2502}{}\u{2502}{}\u{2502}{}\u{2502}",
            label, a, b, c
        )
    };
    let cell = |s: &str| format!("{}{}", s, " ".repeat(20 - s.chars().count()));

    // Hour 06: only channel 1 has a program, starting 06:10.
    assert_eq!(out[2], row("06:00      ", &cell("06:10 Alpha"), &blank, &blank));
    assert_eq!(out[3], row("           ", &blank, &blank, &blank));
    assert_eq!(out[4], rule);
    // Hour 07: only channel 2.
    assert_eq!(out[5], row("07:00      ", &blank, &cell("07:05 Beta"), &blank));
    assert_eq!(out[6], row("           ", &blank, &blank, &blank));
    assert_eq!(out[7], rule);
    // Hour 08: only channel 3.
    assert_eq!(out[8], row("08:00      ", &blank, &blank, &cell("08:20 Gamma")));
    assert_eq!(out[9], row("           ", &blank, &blank, &blank));
    assert_eq!(out[10], rule);
    // Hour 09: nothing airs.
    assert_eq!(out[11], row("09:00      ", &blank, &blank, &blank));
    assert_eq!(out[12], row("           ", &blank, &blank, &blank));
    assert_eq!(out[13], rule);
}

#[test]
fn grid_continuation_flows_to_second_line() {
    let channels = vec![String::from("AA")];
    let mut set = ProgramSet::new();
    let name = "x".repeat(20);
    set.insert(prog(1, &name, "a", at(6, 10), at(6, 40)));
    let out = render_grid(&channels, &set, &at(6, 0), 1);
    // "06:10 " plus fourteen x's fill the first line; six x's continue.
    let line1 = format!("06:10 {}", "x".repeat(14));
    let line2 = format!("{}{}", "x".repeat(6), " ".repeat(14));
    assert_eq!(out[2], format!("06:00      \u{2502}{}\u{2502}", line1));
    assert_eq!(out[3], format!("           \u{2502}{}\u{2502}", line2));
}

#[test]
fn grid_truncation_respects_wide_characters() {
    let channels = vec![String::from("AA")];
    let mut set = ProgramSet::new();
    // Ten wide characters: six cells of time prefix + seven of them fill
    // exactly twenty cells; three continue on the second line.
    let name = "\u{3042}\u{3044}\u{3046}\u{3048}\u{304a}\u{304b}\u{304d}\u{304f}\u{3051}\u{3053}";
    set.insert(prog(1, name, "a", at(6, 10), at(6, 40)));
    let out = render_grid(&channels, &set, &at(6, 0), 1);
    let line1 = "06:10 \u{3042}\u{3044}\u{3046}\u{3048}\u{304a}\u{304b}\u{304d}";
    let line2 = format!("\u{304f}\u{3051}\u{3053}{}", " ".repeat(14));
    assert_eq!(out[2], format!("06:00      \u{2502}{}\u{2502}", line1));
    assert_eq!(out[3], format!("           \u{2502}{}\u{2502}", line2));
}

#[test]
fn grid_cells_never_show_pictographs() {
    let channels = vec![String::from("AA")];
    let mut set = ProgramSet::new();
    set.insert(prog(1, "News\u{2600}Flash", "a", at(6, 10), at(6, 40)));
    let out = render_grid(&channels, &set, &at(6, 0), 1);
    let joined = out.join("\n");
    assert!(joined.contains("06:10 NewsFlash"));
    assert!(!joined.contains('\u{2600}'));
}

#[test]
fn grid_selects_at_most_eight_lowest_channels() {
    let mut channels: Vec<String> = Vec::new();
    for i in 1..=9u64 {
        channels.push(format!("C{}", i));
    }
    let mut set = ProgramSet::new();
    for i in 1..=9u64 {
        set.insert(prog(i, "Show", "a", at(6, i), at(6, 40)));
    }
    let out = render_grid(&channels, &set, &at(6, 0), 1);
    // Eight columns: nine borders in the header.
    let borders = out[0].chars().filter(|c| *c == '\u{2502}').count();
    assert_eq!(borders, 9);
    assert!(out[0].contains("C8"));
    assert!(!out[0].contains("C9"));
}

#[test]
fn grid_skips_channels_without_qualifying_entries() {
    let channels = vec![String::from("AA"), String::from("BB")];
    let mut set = ProgramSet::new();
    set.insert(prog(1, "Gone", "a", at(5, 0), at(5, 30)));
    set.insert(prog(2, "Here", "b", at(6, 10), at(6, 40)));
    let out = render_grid(&channels, &set, &at(6, 0), 1);
    assert!(!out[0].contains("AA"));
    assert!(out[0].contains("BB"));
}
