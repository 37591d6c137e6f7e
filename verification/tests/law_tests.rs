use punten_telling_tik_spel::config::{config_from_csv, relevance_from_tokens, team_from_tokens, Config};
use punten_telling_tik_spel::location_date::Timestamp;
use punten_telling_tik_spel::team::{populate_teams_from_google_sheet, Team, Teams};
use punten_telling_tik_spel::{parse_game_data_at, parse_game_data_core};
use punten_telling_tik_spel::config::config_from_csv_at;
use punten_telling_tik_spel::tikker::Tikkers;

fn strings(v: &[&str]) -> Vec<String> {
    v.iter().map(|s| s.to_string()).collect()
}

#[test]
fn relevance_keys_ignore_case() {
    let a = relevance_from_tokens(&strings(&["Hours", "3", "DAYS", "2", "From", "20-10-2025 13:00:00"]));
    let b = relevance_from_tokens(&strings(&["hours", "3", "days", "2", "from", "20-10-2025 13:00:00"]));
    assert_eq!(a, b);
}

#[test]
fn team_keys_ignore_case() {
    let a = team_from_tokens(&strings(&["NAME", "A", "Id", "1", "COLOR", "red", "ACTIVE", "True"]));
    let b = team_from_tokens(&strings(&["name", "A", "id", "1", "color", "red", "active", "True"]));
    assert_eq!(a.name, b.name);
    assert_eq!(a.team_id, b.team_id);
    assert_eq!(a.color, b.color);
    assert_eq!(a.active, b.active);
    assert_eq!(a.active, Some(true));
}

#[test]
fn time_stamps_at_the_cutoff_count() {
    let mut cfg = Config::default();
    cfg.cutoff_timestamp = Some(Timestamp { secs: 1760965200, nanos: 0 });
    assert!(cfg.is_relevent_time_stamp("20-10-2025 13:00:00").is_some());
    assert!(cfg.is_relevent_time_stamp("20-10-2025 12:59:59").is_none());
}

#[test]
fn tags_come_in_pairs_with_existing_counts() {
    let mut teams = Teams::new();
    let mut start = Team::new("A".to_string());
    start.ticks = 5;
    teams.add_team(start);
    let mut tikkers = Tikkers::default();
    tikkers.add_ticker_by_name_paswoord("Anna", "p1");
    tikkers.add_ticker_by_name_paswoord("Bob", "p2");
    tikkers.tikker_list[0].tiks = 2;
    let getikt = "Tijdstempel,Team index,Wachtwoord\n\
                  19-10-2025 14:12:22,A,p1\n\
                  19-10-2025 14:12:22,C,p2\n\
                  19-10-2025 14:12:22,C,p3\n\
                  bad,A,p1\n";
    populate_teams_from_google_sheet(getikt, &mut teams, &mut tikkers, &Config::default());
    let teams_gained: u32 = teams.team_list.iter().map(|t| t.ticks).sum::<u32>() - 5;
    let players_gained: u32 = tikkers.tikker_list.iter().map(|t| t.tiks).sum::<u32>() - 2;
    assert_eq!(teams_gained, 2);
    assert_eq!(players_gained, 2);
    assert_eq!(tikkers.tikker_list[0].name, "Anna");
    assert_eq!(tikkers.tikker_list[1].paswoord, "p2");
    assert_eq!(teams.team_list[0].team_id, "A");
}

#[test]
fn default_data_touches_only_name_and_image() {
    let mut teams = Teams::new();
    let mut t = Team::new("416C".to_string());
    t.ticks = 3;
    t.points = 4;
    t.subgroup = Some("g".to_string());
    teams.add_team(t);
    let cfg = config_from_csv("team_config,id,416C,name,Ali,image,a.png,color,red,active,true\n").unwrap();
    teams.add_config(&cfg);
    let t = &teams.team_list[0];
    assert_eq!(t.team_id, "416C");
    assert_eq!(t.ticks, 3);
    assert_eq!(t.points, 4);
    assert_eq!(t.subgroup.as_deref(), Some("g"));
    assert_eq!(t.name.as_deref(), Some("Ali"));
    assert_eq!(t.image_url.as_deref(), Some("a.png"));
}

#[test]
fn config_ignores_key_case_and_other_lines() {
    let a = config_from_csv(
        "RELEVANCE,from,20-10-2025 13:00:00\nfoo,bar\n\n,,\nTeam_Config,name,A,id,1\nnotes,relevance\n",
    )
    .unwrap();
    let b = config_from_csv("relevance,from,20-10-2025 13:00:00\nteam_config,name,A,id,1\n").unwrap();
    assert_eq!(a.relevance, b.relevance);
    assert_eq!(a.cutoff_timestamp, b.cutoff_timestamp);
    let (da, db) = (a.default_teams.unwrap(), b.default_teams.unwrap());
    assert_eq!(da.len(), 1);
    assert_eq!(db.len(), 1);
    assert_eq!(da[0].name, db[0].name);
    assert_eq!(da[0].team_id, db[0].team_id);
}

#[test]
fn a_tag_leaves_one_team_per_id() {
    let mut teams = Teams::new();
    teams.add_team(Team::new("A".to_string()));
    teams.add_team(Team::new("B".to_string()));
    teams.add_tick_and_date_to_existing_or_new_team("B", Timestamp { secs: 3, nanos: 0 });
    teams.add_tick_and_date_to_existing_or_new_team("C", Timestamp { secs: 4, nanos: 0 });
    teams.add_tick_to_existing_or_new_team("C");
    for id in ["A", "B", "C"].iter() {
        assert_eq!(teams.team_list.iter().filter(|t| t.team_id == *id).count(), 1);
    }
    assert_eq!(teams.team_list[2].ticks, 2);
}

#[test]
fn game_tags_equal_counting_rows() {
    let tikkers = "Naam,Wachtwoord\nAnna,p1\nBob,p2\n";
    let getikt = "Tijdstempel,Team index,Wachtwoord\n\
                  21-10-2025 09:30:00,A,p1\n\
                  21-10-2025 09:30:00,B,p2\n\
                  21-10-2025 09:30:00,B,nobody\n\
                  19-10-2025 09:30:00,A,p1\n\
                  not a time,A,p1\n\
                  22-10-2025 09:30:00,A,p2\n";
    let config = "relevance,from,20-10-2025 13:00:00\n";
    let game = parse_game_data_core(tikkers, getikt, config).unwrap();
    let team_tags: u32 = game.teams.team_list.iter().map(|t| t.ticks).sum();
    let player_tags: u32 = game.tikkers.tikker_list.iter().map(|t| t.tiks).sum();
    assert_eq!(team_tags, 3);
    assert_eq!(player_tags, 3);
}

#[test]
fn every_game_team_has_a_tag() {
    let tikkers = "Naam,Wachtwoord\nAnna,p1\n";
    let getikt = "Tijdstempel,Team index,Wachtwoord\n21-10-2025 09:30:00,A,p1\n";
    let config = "team_config,name,Zebras,id,Z\nteam_config,name,Apen,id,A\n";
    let game = parse_game_data_core(tikkers, getikt, config).unwrap();
    assert_eq!(game.teams.team_list.len(), 1);
    assert!(game.teams.team_list.iter().all(|t| t.ticks >= 1));
    assert_eq!(game.teams.team_list[0].name.as_deref(), Some("Apen"));
}

#[test]
fn tag_sheet_changes_only_tags() {
    let mut teams = Teams::new();
    let mut a = Team::new("A".to_string());
    a.name = Some("Apen".to_string());
    a.points = 7;
    a.subgroup = Some("x".to_string());
    teams.add_team(a);
    let mut tikkers = Tikkers::default();
    tikkers.add_ticker_by_name_paswoord("Anna", "p1");
    let getikt = "Tijdstempel,Team index,Wachtwoord\n21-10-2025 09:30:00,A,p1\n21-10-2025 09:30:00,N,p1\n";
    populate_teams_from_google_sheet(getikt, &mut teams, &mut tikkers, &Config::default());
    let a = &teams.team_list[0];
    assert_eq!(a.name.as_deref(), Some("Apen"));
    assert_eq!(a.points, 7);
    assert_eq!(a.subgroup.as_deref(), Some("x"));
    assert_eq!(a.ticks, 1);
    let n = &teams.team_list[1];
    assert!(n.name.is_none() && n.image_url.is_none() && n.subgroup.is_none());
    assert_eq!(n.points, 0);
    assert_eq!(tikkers.tikker_list[0].name, "Anna");
    assert_eq!(tikkers.tikker_list[0].paswoord, "p1");
    assert_eq!(tikkers.tikker_list[0].tiks, 2);
}

#[test]
fn last_default_entry_wins() {
    let cfg = config_from_csv(
        "team_config,name,Eerst,id,A,image,a.png\nteam_config,name,Later,id,A\nteam_config,id,B,image,b.png\n",
    )
    .unwrap();
    let mut teams = Teams::new();
    let mut a = Team::new("A".to_string());
    a.image_url = Some("own.png".to_string());
    teams.add_team(a);
    let mut b = Team::new("B".to_string());
    b.name = Some("Bijen".to_string());
    teams.add_team(b);
    teams.add_config(&cfg);
    assert_eq!(teams.team_list[0].name.as_deref(), Some("Later"));
    assert_eq!(teams.team_list[0].image_url.as_deref(), Some("a.png"));
    assert_eq!(teams.team_list[1].name.as_deref(), Some("Bijen"));
    assert_eq!(teams.team_list[1].image_url.as_deref(), Some("b.png"));
}

#[test]
fn same_reading_same_config_despite_key_case() {
    let now = Some(Timestamp { secs: 1_760_965_200, nanos: 5 });
    let a = config_from_csv_at("Relevance_Time,hours,4\nx,y\nTEAMCONFIG,id,Q,name,Quokka\n", now).unwrap();
    let b = config_from_csv_at("relevance_time,hours,4\nteamconfig,id,Q,name,Quokka\n", now).unwrap();
    assert_eq!(a.relevance, b.relevance);
    assert_eq!(a.cutoff_timestamp, b.cutoff_timestamp);
    assert_eq!(a.cutoff_timestamp, Some(Timestamp { secs: 1_760_965_200 - 4 * 3600, nanos: 5 }));
    assert_eq!(a.default_teams.unwrap()[0].name, b.default_teams.unwrap()[0].name);
}

#[test]
fn one_reading_one_game() {
    let tikkers = "Naam,Wachtwoord\nAnna,p1\n";
    let getikt = "Tijdstempel,Team index,Wachtwoord\n20-10-2025 10:00:00,A,p1\n20-10-2025 12:00:00,B,p1\n";
    let config = "relevance,hours,2\n";
    let now = Some(Timestamp { secs: 1_760_965_200, nanos: 0 });
    let g1 = parse_game_data_at(tikkers, getikt, config, now).unwrap();
    let g2 = parse_game_data_at(tikkers, getikt, config, now).unwrap();
    assert_eq!(g1.teams.team_list.len(), 1);
    assert_eq!(g1.teams.team_list[0].team_id, "B");
    assert_eq!(g2.teams.team_list.len(), 1);
    assert_eq!(g1.tikkers.tikker_list[0].tiks, g2.tikkers.tikker_list[0].tiks);
    let all = parse_game_data_at(tikkers, getikt, config, None).unwrap();
    assert_eq!(all.teams.team_list.len(), 2);
}
