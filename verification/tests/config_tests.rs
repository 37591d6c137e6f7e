use punten_telling_tik_spel::config::{
    apply_relevance_token, config_from_csv, config_from_csv_at, config_from_records_at, relevance_from_tokens, team_from_tokens, team_with_token,
    Config, DefaultTeam, Relevance,
};
use punten_telling_tik_spel::location_date::{Timestamp};

fn now() -> Timestamp {
    let n = chrono::Utc::now();
    Timestamp { secs: n.timestamp(), nanos: n.timestamp_subsec_nanos() }
}

fn ts(secs: i64) -> Timestamp {
    Timestamp { secs, nanos: 0 }
}

fn strings(v: &[&str]) -> Vec<String> {
    v.iter().map(|s| s.to_string()).collect()
}

#[test]
fn default_team_partly_filled() {
    let empty = DefaultTeam::default();
    assert!(!empty.partely_filled());
    let mut t = DefaultTeam::default();
    t.color = Some("red".to_string());
    assert!(t.partely_filled());
    let mut t = DefaultTeam::default();
    t.active = Some(false);
    assert!(t.partely_filled());
}

#[test]
fn relevance_hours_days_and_from() {
    let r = relevance_from_tokens(&strings(&["hour:", "24"]));
    assert_eq!(r.hours, Some(24));
    assert_eq!(r.days, None);
    let r = relevance_from_tokens(&strings(&["days:", "7"]));
    assert_eq!(r.days, Some(7));
    assert_eq!(r.hours, None);
    let r = relevance_from_tokens(&strings(&["from:", "20-10-2025 13:00:00"]));
    assert_eq!(r.from, Some(ts(1760965200)));
}

#[test]
fn relevance_tokens_ignore_case_and_pass_over_bad_values() {
    let r = relevance_from_tokens(&strings(&["HOURS", " 5 ", "Day", "x", "FROM", "nope", "other", "1"]));
    assert_eq!(r.hours, Some(5));
    assert_eq!(r.days, None);
    assert_eq!(r.from, None);
    let lower = relevance_from_tokens(&strings(&["hours", " 5 ", "day", "x"]));
    assert_eq!(r.hours, lower.hours);
    assert_eq!(r.days, lower.days);
}

#[test]
fn relevance_token_without_value() {
    let r = relevance_from_tokens(&strings(&["hours"]));
    assert_eq!(r, Relevance::default());
    let r = relevance_from_tokens(&strings(&["days", "3", "hours"]));
    assert_eq!(r.days, Some(3));
    assert_eq!(r.hours, None);
}

#[test]
fn relevance_later_pairs_win() {
    let r = relevance_from_tokens(&strings(&["hours", "1", "hours", "2"]));
    assert_eq!(r.hours, Some(2));
}

#[test]
fn cutoff_reckons_back() {
    let rel = Relevance { days: Some(1), hours: Some(2), from: None, include_inactive: None };
    let now = Timestamp { secs: 1_000_000, nanos: 17 };
    assert_eq!(rel.cutoff_at(now), Some(Timestamp { secs: 1_000_000 - 86_400 - 7_200, nanos: 17 }));
    let rel = Relevance::default();
    assert_eq!(rel.cutoff_at(now), Some(now));
}

#[test]
fn cutoff_out_of_range_is_none() {
    let rel = Relevance { days: Some(u32::MAX), hours: None, from: None, include_inactive: None };
    let now = Timestamp { secs: 1_760_000_000, nanos: 0 };
    assert_eq!(rel.cutoff_at(now), None);
}

#[test]
fn add_relevance_with_from_sets_cutoff() {
    let mut cfg = Config::default();
    cfg.add_relevance(strings(&["from:", "20-10-2025 13:00:00"]));
    assert_eq!(cfg.cutoff_timestamp, Some(ts(1760965200)));
    assert_eq!(cfg.relevance.unwrap().from, Some(ts(1760965200)));
}

#[test]
fn add_relevance_with_hours_reckons_from_now() {
    let before = now();
    let mut cfg = Config::default();
    cfg.add_relevance(strings(&["hour:", "24"]));
    let after = now();
    let c = cfg.cutoff_timestamp.unwrap();
    assert!(c.secs >= before.secs - 86_400 && c.secs <= after.secs - 86_400);
}

#[test]
fn add_relevance_with_days_reckons_days() {
    let before = now();
    let mut cfg = Config::default();
    cfg.add_relevance(strings(&["days:", "7"]));
    let after = now();
    let c = cfg.cutoff_timestamp.unwrap();
    assert!(c.secs >= before.secs - 7 * 86_400 && c.secs <= after.secs - 7 * 86_400);
}

#[test]
fn add_relevance_out_of_range_keeps_cutoff() {
    let mut cfg = Config::default();
    cfg.cutoff_timestamp = Some(ts(5));
    cfg.add_relevance(strings(&["days", "4294967295"]));
    assert_eq!(cfg.cutoff_timestamp, Some(ts(5)));
    assert_eq!(cfg.relevance.unwrap().days, Some(u32::MAX));
}

#[test]
fn relevant_time_stamps() {
    let mut cfg = Config::default();
    assert_eq!(cfg.is_relevent_time_stamp("19-10-2025 14:12:22"), Some(ts(1760883142)));
    assert_eq!(cfg.is_relevent_time_stamp("garbage"), None);
    cfg.cutoff_timestamp = Some(ts(1760883142));
    assert_eq!(cfg.is_relevent_time_stamp("19-10-2025 14:12:22"), Some(ts(1760883142)));
    assert_eq!(cfg.is_relevent_time_stamp("19-10-2025 14:12:21"), None);
    assert_eq!(cfg.is_relevent_time_stamp("20-10-2025 13:00:00"), Some(ts(1760965200)));
}

#[test]
fn team_from_tokens_reads_pairs() {
    let t = team_from_tokens(&strings(&["Name:", "Aligatoren", "ID", "416C", "image", "Aligatoren.png"]));
    assert_eq!(t.name.as_deref(), Some("Aligatoren"));
    assert_eq!(t.team_id.as_deref(), Some("416C"));
    assert_eq!(t.image_url.as_deref(), Some("Aligatoren.png"));
    assert_eq!(t.color, None);
    assert_eq!(t.active, None);
}

#[test]
fn team_from_tokens_active_and_leftover() {
    let t = team_from_tokens(&strings(&["active", "TRUE!", "color", "blue", "name"]));
    assert_eq!(t.active, Some(true));
    assert_eq!(t.color.as_deref(), Some("blue"));
    assert_eq!(t.name, None);
    let t = team_from_tokens(&strings(&["Active", "no", "teamid", "7", "image_paht", "x.png"]));
    assert_eq!(t.active, Some(false));
    assert_eq!(t.team_id.as_deref(), Some("7"));
    assert_eq!(t.image_url.as_deref(), Some("x.png"));
}

#[test]
fn add_team_config_only_keeps_filled_teams() {
    let mut cfg = Config::default();
    cfg.add_team_config(strings(&["unknown", "x"]));
    assert!(cfg.default_teams.is_none());
    cfg.add_team_config(strings(&["id", "1"]));
    cfg.add_team_config(strings(&["id", "2", "name", "Twee"]));
    let teams = cfg.default_teams.unwrap();
    assert_eq!(teams.len(), 2);
    assert_eq!(teams[0].team_id.as_deref(), Some("1"));
    assert_eq!(teams[1].name.as_deref(), Some("Twee"));
}

#[test]
fn config_from_csv_blank_is_empty() {
    let cfg = config_from_csv("  \n ").unwrap();
    assert!(cfg.relevance.is_none());
    assert!(cfg.default_teams.is_none());
    assert!(cfg.cutoff_timestamp.is_none());
}

#[test]
fn config_from_csv_reads_readme_example() {
    let csv = "relevance,from:,20-10-2025 13:00:00,,\nteam_config,Name:,Aligatoren,ID,416C,image,Aligatoren.png\nsomething,else\n,,\nTEAMCONFIG, color , red \n";
    let cfg = config_from_csv(csv).unwrap();
    let rel = cfg.relevance.unwrap();
    assert_eq!(rel.from, Some(ts(1760965200)));
    assert_eq!(cfg.cutoff_timestamp, Some(ts(1760965200)));
    let teams = cfg.default_teams.unwrap();
    assert_eq!(teams.len(), 2);
    assert_eq!(teams[0].name.as_deref(), Some("Aligatoren"));
    assert_eq!(teams[0].team_id.as_deref(), Some("416C"));
    assert_eq!(teams[0].image_url.as_deref(), Some("Aligatoren.png"));
    assert_eq!(teams[1].color.as_deref(), Some("red"));
}

#[test]
fn config_from_csv_relative_window() {
    let before = now();
    let cfg = config_from_csv("relevance_time,hour:,24\n").unwrap();
    let after = now();
    assert_eq!(cfg.relevance.unwrap().hours, Some(24));
    let c = cfg.cutoff_timestamp.unwrap();
    assert!(c.secs >= before.secs - 86_400 && c.secs <= after.secs - 86_400);
}

#[test]
fn config_from_csv_last_relevance_line_wins() {
    let cfg = config_from_csv("relevance,days,3\nrelevance,from,18-10-2025 08:00:00\n").unwrap();
    let rel = cfg.relevance.unwrap();
    assert_eq!(rel.days, None);
    assert_eq!(rel.from, Some(ts(1760774400)));
    assert_eq!(cfg.cutoff_timestamp, Some(ts(1760774400)));
}

#[test]
fn one_relevance_token_at_a_time() {
    let r = Relevance::default();
    let r = apply_relevance_token(r, "hours:", "5", None);
    assert_eq!(r.hours, Some(5));
    let r = apply_relevance_token(r, "days", "+2", None);
    assert_eq!(r.days, Some(2));
    let r = apply_relevance_token(r, "from", "whatever", Some(ts(42)));
    assert_eq!(r.from, Some(ts(42)));
    let r2 = apply_relevance_token(r, "from", "20-10-2025 13:00:00", None);
    assert_eq!(r2, r);
    let r3 = apply_relevance_token(r, "hours", "x", None);
    assert_eq!(r3, r);
    let r4 = apply_relevance_token(r, "hourfrom", "7", Some(ts(1)));
    assert_eq!(r4.hours, Some(7));
    assert_eq!(r4.from, Some(ts(42)));
    let r5 = apply_relevance_token(r, "other", "7", Some(ts(1)));
    assert_eq!(r5, r);
    let r6 = apply_relevance_token(r, "HOURS", "9", None);
    assert_eq!(r6, r);
}

#[test]
fn one_team_token_at_a_time() {
    let t = team_with_token(DefaultTeam::default(), "name:", "Leeuwen".to_string(), "leeuwen");
    assert_eq!(t.name.as_deref(), Some("Leeuwen"));
    let t = team_with_token(t, "teamid", "7".to_string(), "7");
    assert_eq!(t.team_id.as_deref(), Some("7"));
    let t = team_with_token(t, "image_paht", "l.png".to_string(), "l.png");
    assert_eq!(t.image_url.as_deref(), Some("l.png"));
    let t = team_with_token(t, "color", "Blue".to_string(), "blue");
    assert_eq!(t.color.as_deref(), Some("Blue"));
    let t = team_with_token(t, "active", "TRUE".to_string(), "true");
    assert_eq!(t.active, Some(true));
    let t = team_with_token(t, "active", "nee".to_string(), "nee");
    assert_eq!(t.active, Some(false));
    let t = team_with_token(t, "Name", "Other".to_string(), "other");
    assert_eq!(t.name.as_deref(), Some("Leeuwen"));
}

#[test]
fn relevant_stamp_against_cutoff() {
    let mut cfg = Config::default();
    assert_eq!(cfg.relevant_stamp(Some(ts(5))), Some(ts(5)));
    assert_eq!(cfg.relevant_stamp(None), None);
    cfg.cutoff_timestamp = Some(ts(10));
    assert_eq!(cfg.relevant_stamp(Some(ts(10))), Some(ts(10)));
    assert_eq!(cfg.relevant_stamp(Some(ts(11))), Some(ts(11)));
    assert_eq!(cfg.relevant_stamp(Some(ts(9))), None);
    assert_eq!(cfg.relevant_stamp(None), None);
}

#[test]
fn config_from_csv_reads_any_text() {
    assert!(config_from_csv("\"unclosed,relevance\nteam_config,name").is_ok());
    assert!(config_from_csv("a\nb,c,d\n,,,\n\"x\"\"y\",z").is_ok());
    let cfg = config_from_csv("\"relevance\",\"from\",\"20-10-2025 13:00:00\"").unwrap();
    assert_eq!(cfg.cutoff_timestamp, Some(ts(1760965200)));
}

#[test]
fn cutoff_with_a_given_reading() {
    let mut cfg = Config::default();
    cfg.add_relevance_at(strings(&["hours", "2", "days", "1"]), Some(ts(1_000_000)));
    assert_eq!(cfg.cutoff_timestamp, Some(ts(1_000_000 - 86400 - 7200)));
    let mut cfg = Config::default();
    cfg.add_relevance_at(strings(&["hours", "2"]), None);
    assert_eq!(cfg.cutoff_timestamp, None);
    assert_eq!(cfg.relevance.unwrap().hours, Some(2));
    let mut cfg = Config::default();
    cfg.cutoff_timestamp = Some(ts(5));
    cfg.add_cutoff_at(Some(ts(100)));
    assert_eq!(cfg.cutoff_timestamp, Some(ts(5)));
    cfg.relevance = Some(Relevance { days: None, hours: Some(1), from: None, include_inactive: None });
    cfg.add_cutoff_at(Some(Timestamp { secs: 7200, nanos: 9 }));
    assert_eq!(cfg.cutoff_timestamp, Some(Timestamp { secs: 3600, nanos: 9 }));
    cfg.relevance = Some(Relevance { days: None, hours: None, from: Some(ts(77)), include_inactive: None });
    cfg.add_cutoff_at(None);
    assert_eq!(cfg.cutoff_timestamp, Some(ts(77)));
}

#[test]
fn config_from_csv_at_is_exact() {
    let now = Some(ts(1_760_965_200));
    let cfg = config_from_csv_at("relevance,hours,3\nteam_config,name,A,id,1\n", now).unwrap();
    assert_eq!(cfg.cutoff_timestamp, Some(ts(1_760_965_200 - 3 * 3600)));
    assert_eq!(cfg.default_teams.as_ref().unwrap().len(), 1);
    let cfg = config_from_csv_at("relevance,hours,3\nrelevance,from,20-10-2025 13:00:00\n", now).unwrap();
    assert_eq!(cfg.cutoff_timestamp, Some(ts(1760965200)));
    let cfg = config_from_csv_at("relevance,from,20-10-2025 13:00:00\nrelevance,days,1\n", now).unwrap();
    assert_eq!(cfg.cutoff_timestamp, Some(ts(1_760_965_200 - 86400)));
    let cfg = config_from_csv_at("relevance,from,20-10-2025 13:00:00\nrelevance,days,1\n", None).unwrap();
    assert_eq!(cfg.cutoff_timestamp, Some(ts(1760965200)));
    let cfg = config_from_csv_at("  \n ", now).unwrap();
    assert!(cfg.relevance.is_none() && cfg.cutoff_timestamp.is_none() && cfg.default_teams.is_none());
}

fn record(v: &[&str]) -> Vec<String> {
    strings(v)
}

#[test]
fn config_from_given_records() {
    let records = vec![
        record(&["  Relevance ", " hours ", " 2 ", "", ""]),
        record(&["note", "relevance", "days", "9"]),
        record(&[]),
        record(&["", "", ""]),
        record(&["TeamConfig", "id", "7", "name", "Zeven"]),
        record(&["team_config", "color", ""]),
    ];
    let cfg = config_from_records_at(&records, Some(ts(100_000)));
    let rel = cfg.relevance.unwrap();
    assert_eq!(rel.hours, Some(2));
    assert_eq!(rel.days, None);
    assert_eq!(cfg.cutoff_timestamp, Some(ts(100_000 - 7200)));
    let teams = cfg.default_teams.unwrap();
    assert_eq!(teams.len(), 1);
    assert_eq!(teams[0].team_id.as_deref(), Some("7"));
    assert_eq!(teams[0].name.as_deref(), Some("Zeven"));
    let none = config_from_records_at(&Vec::new(), None);
    assert!(none.relevance.is_none() && none.default_teams.is_none() && none.cutoff_timestamp.is_none());
}

#[test]
fn configuration_clones() {
    let cfg = config_from_csv_at("relevance,from,20-10-2025 13:00:00\nteam_config,id,1,name,Een\n", None).unwrap();
    let copy = cfg.clone();
    assert_eq!(copy.relevance, cfg.relevance);
    assert_eq!(copy.cutoff_timestamp, cfg.cutoff_timestamp);
    assert_eq!(copy.default_teams.unwrap()[0].name.as_deref(), Some("Een"));
    let t = DefaultTeam::default().clone();
    assert!(!t.partely_filled());
}
