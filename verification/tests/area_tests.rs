use tvguide::area::{area_names_joined, area_table, lookup_area};

#[test]
fn table_holds_all_areas() {
    assert_eq!(area_table().len(), 54);
}

#[test]
fn known_areas_resolve_to_their_identifiers() {
    let t = area_table();
    // Tokyo.
    assert_eq!(lookup_area(&t, "\u{6771}\u{4eac}"), Some(String::from("42")));
    // Sapporo, the first entry.
    assert_eq!(lookup_area(&t, "\u{672d}\u{5e4c}"), Some(String::from("1")));
    // Okinawa.
    assert_eq!(lookup_area(&t, "\u{6c96}\u{7e04}"), Some(String::from("134")));
}

#[test]
fn unknown_area_is_rejected() {
    let t = area_table();
    assert_eq!(lookup_area(&t, "nowhere"), None);
    assert_eq!(lookup_area(&t, ""), None);
}

#[test]
fn names_listing_joins_all_names_with_spaces() {
    let t = area_table();
    let joined = area_names_joined(&t);
    // Starts with the first name, no leading or trailing space.
    assert!(joined.starts_with("\u{672d}\u{5e4c} "));
    assert!(!joined.ends_with(' '));
    // Holds every name, separated by single spaces.
    assert_eq!(joined.split(' ').count(), 54);
    assert!(joined.split(' ').any(|n| n == "\u{6771}\u{4eac}"));
}
