use tvguide::clock::code_of_moment;
use tvguide::extract::{extract_listing, merge_listing, parse_channel_container, strip_id_prefix};

fn chars(s: &str) -> Vec<char> {
    s.chars().collect()
}

fn text(v: &[char]) -> String {
    v.iter().collect()
}

fn page(programs: &str) -> String {
    format!(
        "<html><body><div>\
         <div id=\"ch_area\"><ul>\
         <li><p>CH-A</p></li><li><p>CH-B</p></li>\
         </ul></div>\
         <div id=\"program_area\">{}</div>\
         </div></body></html>",
        programs
    )
}

fn item(se_id: &str, s: &str, e: &str, title: &str, link: &str, detail: &str) -> String {
    format!(
        "<li se-id=\"{}\" s=\"{}\" e=\"{}\">\
         <p class=\"program_title\">{}</p>\
         <div><a href=\"{}\">more</a><p class=\"program_detail\">{}</p></div>\
         </li>",
        se_id, s, e, title, link, detail
    )
}

#[test]
fn channel_container_parsing() {
    assert_eq!(parse_channel_container(&chars("program_line_7")), Some(7));
    assert_eq!(parse_channel_container(&chars("program_line_12")), Some(12));
    assert_eq!(parse_channel_container(&chars("program_line_")), None);
    assert_eq!(parse_channel_container(&chars("program_lane_3")), None);
    assert_eq!(parse_channel_container(&chars("")), None);
    assert_eq!(parse_channel_container(&chars("program_line_3x")), None);
    // A suffix too large for the machine word is malformed.
    assert_eq!(
        parse_channel_container(&chars("program_line_99999999999999999999999")),
        None
    );
}

#[test]
fn id_prefix_stripping() {
    assert_eq!(text(&strip_id_prefix(&chars("0000000X1"))), "X1");
    assert_eq!(text(&strip_id_prefix(&chars("abcdefg"))), "");
    assert_eq!(text(&strip_id_prefix(&chars("abc"))), "");
}

#[test]
fn extract_reads_channels_and_one_entry() {
    let html = page(&format!(
        "<ul id=\"program_line_1\">{}</ul>",
        item(
            "0000000X1",
            "202501150600",
            "202501150630",
            "News",
            "http://example.com/a",
            "Morning news",
        )
    ));
    let (channels, set) = extract_listing(&html);
    assert_eq!(channels, vec![String::from("CH-A"), String::from("CH-B")]);
    assert_eq!(set.len(), 1);
    let p = &set.items[0];
    assert_eq!(p.id, "X1");
    assert_eq!(p.channel, 1);
    assert_eq!(p.name, "News");
    assert_eq!(p.link, "http://example.com/a");
    assert_eq!(p.description, "Morning news");
    assert_eq!(code_of_moment(&p.start), 202501150600);
    assert_eq!(code_of_moment(&p.end), 202501150630);
}

#[test]
fn extract_discards_nodes_without_title() {
    let html = page(&format!(
        "<ul id=\"program_line_1\">{}<li s=\"202501150700\" e=\"202501150730\"><p>untitled</p></li></ul>",
        item("0000000X1", "202501150600", "202501150630", "News", "", "")
    ));
    let (_, set) = extract_listing(&html);
    assert_eq!(set.len(), 1);
    assert_eq!(set.items[0].name, "News");
}

#[test]
fn extract_discards_nodes_with_malformed_times() {
    let html = page(&format!(
        "<ul id=\"program_line_1\">{}{}</ul>",
        item("0000000X1", "20250115060", "202501150630", "Short", "", ""),
        item("0000000X2", "202501150700", "202501150730", "Good", "", ""),
    ));
    let (_, set) = extract_listing(&html);
    assert_eq!(set.len(), 1);
    assert_eq!(set.items[0].name, "Good");
}

#[test]
fn extract_first_seen_entry_wins_on_key_collision() {
    let html = page(&format!(
        "<ul id=\"program_line_1\">{}{}</ul>",
        item("0000000X1", "202501150600", "202501150630", "First", "", ""),
        item("0000000X2", "202501150600", "202501150700", "Second", "", ""),
    ));
    let (_, set) = extract_listing(&html);
    assert_eq!(set.len(), 1);
    assert_eq!(set.items[0].name, "First");
    assert_eq!(set.items[0].id, "X1");
}

#[test]
fn merge_keeps_existing_entries_and_adds_new_days() {
    let first = page(&format!(
        "<ul id=\"program_line_1\">{}</ul>",
        item("0000000X1", "202501150600", "202501150630", "Today", "", "")
    ));
    let second = page(&format!(
        "<ul id=\"program_line_1\">{}{}</ul>",
        item("0000000X9", "202501150600", "202501150645", "Overlap", "", ""),
        item("0000000X2", "202501160600", "202501160630", "Tomorrow", "", ""),
    ));
    let (_, mut set) = extract_listing(&first);
    merge_listing(&mut set, &second);
    assert_eq!(set.len(), 2);
    // The colliding entry of the second day did not replace the first.
    assert_eq!(set.items[0].name, "Today");
    assert_eq!(set.items[1].name, "Tomorrow");
}

#[test]
fn extract_entries_arrive_sorted_across_containers() {
    let html = page(&format!(
        "<ul id=\"program_line_2\">{}</ul><ul id=\"program_line_1\">{}</ul>",
        item("0000000B1", "202501150700", "202501150730", "OnTwo", "", ""),
        item("0000000A1", "202501150600", "202501150630", "OnOne", "", ""),
    ));
    let (_, set) = extract_listing(&html);
    assert_eq!(set.len(), 2);
    assert_eq!(set.items[0].name, "OnOne");
    assert_eq!(set.items[1].name, "OnTwo");
    assert_eq!(set.items[0].channel, 1);
    assert_eq!(set.items[1].channel, 2);
}
