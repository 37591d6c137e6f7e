use punten_telling_tik_spel::config::Config;
use punten_telling_tik_spel::location_date::{Locatie, Timestamp};
use punten_telling_tik_spel::tikker::{get_tikkers_from_google_sheet, tikkers_from_sheet_rows, Tikker, Tikkers};
use punten_telling_tik_spel::inport_info::SheetRow;

fn ts(secs: i64) -> Timestamp {
    Timestamp { secs, nanos: 0 }
}

fn two() -> Tikkers {
    let mut t = Tikkers::default();
    t.add_ticker_by_name_paswoord("Anna", "geheim");
    t.add_ticker_by_name_paswoord("Bob", "wacht");
    t
}

#[test]
fn new_tikker_has_no_tags() {
    let t = Tikker::new("Anna".to_string(), "geheim".to_string());
    assert_eq!(t.name, "Anna");
    assert_eq!(t.paswoord, "geheim");
    assert_eq!(t.tiks, 0);
    assert!(t.last_tick.is_none());
    assert!(t.last_loc.is_none());
}

#[test]
fn tikker_counts_tags() {
    let mut t = Tikker::new("A".to_string(), "p".to_string());
    t.add_tik();
    t.add_tik_date(ts(9));
    assert_eq!(t.tiks, 2);
    assert_eq!(t.last_tick, Some(ts(9)));
    let l = Locatie::new(1, 2, ts(3));
    t.update_location(l);
    assert_eq!(t.last_loc, Some(l));
}

#[test]
fn lookup_by_name_and_password() {
    let mut t = two();
    assert_eq!(t.get_tikker_by_name("Bob").map(|x| x.paswoord.clone()), Some("wacht".to_string()));
    assert!(t.get_tikker_by_name("Carl").is_none());
    assert_eq!(t.get_tikker_by_pasword("geheim").map(|x| x.name.clone()), Some("Anna".to_string()));
    assert!(t.get_tikker_by_pasword("Anna").is_none());
}

#[test]
fn change_through_lookup() {
    let mut t = two();
    if let Some(x) = t.get_tikker_by_name("Bob") {
        x.tiks = 5;
    }
    assert_eq!(t.tikker_list[1].tiks, 5);
}

#[test]
fn add_tags_by_name() {
    let mut t = two();
    assert_eq!(t.add_num_tiks_by_name("Anna", 3), Some("Anna"));
    assert_eq!(t.add_num_tiks_by_name("Nobody", 3), None);
    assert_eq!(t.tikker_list[0].tiks, 3);
    assert_eq!(t.tikker_list[1].tiks, 0);
}

#[test]
fn add_tags_by_password() {
    let mut t = two();
    let got = t.add_num_tiks_by_paswoord("wacht", 2).map(|x| x.tiks);
    assert_eq!(got, Some(2));
    assert!(t.add_num_tiks_by_paswoord("none", 2).is_none());
    assert_eq!(t.add_tik_with_date_by_paswoord("wacht", ts(4), 1), Some("Bob"));
    assert_eq!(t.tikker_list[1].tiks, 3);
    assert_eq!(t.tikker_list[1].last_tick, Some(ts(4)));
    assert_eq!(t.add_tik_with_date_by_paswoord("none", ts(4), 1), None);
}

#[test]
fn first_of_equal_passwords_gets_the_tag() {
    let mut t = two();
    t.add_ticker_by_name_paswoord("Bob2", "wacht");
    t.add_tik_with_date_by_paswoord("wacht", ts(1), 1);
    assert_eq!(t.tikker_list[1].tiks, 1);
    assert_eq!(t.tikker_list[2].tiks, 0);
}

#[test]
fn remove_players() {
    let mut t = two();
    let r = t.remove_tikker_by_name("Anna").unwrap();
    assert_eq!(r.paswoord, "geheim");
    assert_eq!(t.tikker_list.len(), 1);
    assert!(t.remove_tikker_by_name("Anna").is_none());
    let r = t.remove_tikker_by_paswoord("wacht").unwrap();
    assert_eq!(r.name, "Bob");
    assert!(t.tikker_list.is_empty());
    assert!(t.remove_tikker_by_paswoord("wacht").is_none());
}

#[test]
fn add_tikker_appends() {
    let mut t = Tikkers::default();
    t.add_tikker(Tikker::new("Z".to_string(), "z".to_string()));
    assert_eq!(t.tikker_list.len(), 1);
    assert_eq!(t.tikker_list[0].name, "Z");
}

#[test]
fn players_from_sheet() {
    let csv = "Tijdstempel,Naam,Wachtwoord\n19-10-2025 14:12:22,Anna,geheim\n19-10-2025 14:13:00,Bob,wacht\n";
    let t = get_tikkers_from_google_sheet(csv, &Config::default()).unwrap();
    assert_eq!(t.tikker_list.len(), 2);
    assert_eq!(t.tikker_list[0].name, "Anna");
    assert_eq!(t.tikker_list[1].paswoord, "wacht");
    assert!(t.tikker_list.iter().all(|x| x.tiks == 0));
}

#[test]
fn players_from_bad_sheet_is_empty() {
    let t = get_tikkers_from_google_sheet("A,B\n1,2,3\n", &Config::default()).unwrap();
    assert!(t.tikker_list.is_empty());
    let t = get_tikkers_from_google_sheet("Naam\nX\n", &Config::default()).unwrap();
    assert_eq!(t.tikker_list[0].paswoord, "");
}

#[test]
fn players_from_rows() {
    let cell = |h: &str, v: &str| (h.to_string(), v.to_string());
    let rows = vec![
        SheetRow { cells: vec![cell("Naam", "Anna"), cell("Wachtwoord", "p1")] },
        SheetRow { cells: vec![cell("Wachtwoord", "p2")] },
        SheetRow { cells: vec![cell("Naam", "X"), cell("Naam", "Cas"), cell("Other", "z")] },
    ];
    let t = tikkers_from_sheet_rows(&rows);
    assert_eq!(t.tikker_list.len(), 3);
    assert_eq!((t.tikker_list[0].name.as_str(), t.tikker_list[0].paswoord.as_str()), ("Anna", "p1"));
    assert_eq!((t.tikker_list[1].name.as_str(), t.tikker_list[1].paswoord.as_str()), ("", "p2"));
    assert_eq!((t.tikker_list[2].name.as_str(), t.tikker_list[2].paswoord.as_str()), ("Cas", ""));
    assert!(t.tikker_list.iter().all(|p| p.tiks == 0));
}
