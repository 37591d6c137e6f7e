use punten_telling_tik_spel::{get_getikt_url, get_tikkers_url, parse_game_data_core};
use punten_telling_tik_spel::inport_info::{PUB_DOWNLOAD_URL_SHEET_GETIKT, PUB_DOWNLOAD_URL_SHEET_WW};

#[test]
fn urls() {
    assert_eq!(get_tikkers_url(), PUB_DOWNLOAD_URL_SHEET_WW);
    assert_eq!(get_getikt_url(), PUB_DOWNLOAD_URL_SHEET_GETIKT);
    assert!(get_tikkers_url().ends_with("output=csv"));
}

#[test]
fn whole_game() {
    let tikkers = "Tijdstempel,Naam,Wachtwoord\n18-10-2025 08:00:00,Anna,geheim\n18-10-2025 08:00:00,Bob,wacht\n";
    let getikt = "Tijdstempel,Team index,Wachtwoord\n\
                  19-10-2025 14:12:22,416C,geheim\n\
                  21-10-2025 09:30:00,416C,wacht\n\
                  21-10-2025 09:30:00,B,wacht\n";
    let config = "relevance,from:,20-10-2025 13:00:00\nteam_config,Name:,Aligatoren,ID,416C,image,Aligatoren.png\n";
    let game = parse_game_data_core(tikkers, getikt, config).unwrap();
    assert_eq!(game.tikkers.tikker_list.len(), 2);
    assert_eq!(game.tikkers.tikker_list[0].tiks, 0);
    assert_eq!(game.tikkers.tikker_list[1].tiks, 2);
    assert_eq!(game.teams.team_list.len(), 2);
    let t = &game.teams.team_list[0];
    assert_eq!(t.team_id, "416C");
    assert_eq!(t.ticks, 1);
    assert_eq!(t.name.as_deref(), Some("Aligatoren"));
    assert_eq!(t.image_url.as_deref(), Some("Aligatoren.png"));
    assert_eq!(game.teams.team_list[1].team_id, "B");
}

#[test]
fn whole_game_without_config() {
    let tikkers = "Naam,Wachtwoord\nAnna,geheim\n";
    let getikt = "Tijdstempel,Team index,Wachtwoord\n19-10-2025 14:12:22,X,geheim\n";
    let game = parse_game_data_core(tikkers, getikt, "").unwrap();
    assert_eq!(game.tikkers.tikker_list[0].tiks, 1);
    assert_eq!(game.teams.team_list[0].team_id, "X");
    assert!(game.teams.team_list[0].name.is_none());
}
