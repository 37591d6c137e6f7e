//! Scoring of a tag game ("tikspel") kept in published spreadsheets: players
//! and their passwords, the tags they report for teams, and the settings that
//! say which tags count.
pub mod config;
pub mod inport_info;
pub mod location_date;
pub mod lookup;
pub mod team;
pub mod text;
pub mod tikker;

use vstd::prelude::*;
use vstd::string::*;
use crate::config::{
    config_from_csv_at, config_read, config_read_at, config_read_now, config_records, config_lines, default_teams_view,
    law_config_read_at_is_determined, lemma_cutoff_after_all_possible, valid_reading, Config,
};
use crate::location_date::{clock_now, is_post_epoch_reading, Timestamp};
use crate::inport_info::{sheet_rows, PUB_DOWNLOAD_URL_SHEET_GETIKT, PUB_DOWNLOAD_URL_SHEET_WW};
use crate::team::{
    all_tagged, counting_rows, law_config_touches_only_name_and_image, law_tags_equal_counting_rows,
    law_tick_rows_keep_all_tagged, lemma_total_ticks_same_counts, populate_teams_from_google_sheet,
    teams_configured, tick_rows, tick_rows_fit, total_ticks, TeamView, Teams,
};
use crate::tikker::{get_tikkers_from_google_sheet, tikkers_from_sheet, TikkerView, Tikkers};

verus! {

/// The address of the player sheet.
pub fn get_tikkers_url() -> (r: String)
    ensures
        r@ == PUB_DOWNLOAD_URL_SHEET_WW@,
{
    PUB_DOWNLOAD_URL_SHEET_WW.to_owned()
}

/// The address of the tag sheet.
pub fn get_getikt_url() -> (r: String)
    ensures
        r@ == PUB_DOWNLOAD_URL_SHEET_GETIKT@,
{
    PUB_DOWNLOAD_URL_SHEET_GETIKT.to_owned()
}

/// The teams and players of a game.
#[derive(Debug)]
pub struct GameData {
    pub teams: Teams,
    pub tikkers: Tikkers,
}

/// The teams and players after the tag sheet, before the default team data:
/// the players listed, tagged by the counting rows of the tag sheet, with the
/// teams those rows make (the players as listed and no teams where the sheet
/// does not read or a count could pass its counter).
pub open spec fn game_tagged(cfg: Config, tikkers_csv: Seq<char>, getikt_csv: Seq<char>) -> (Seq<TeamView>, Seq<TikkerView>) {
    let start = (Seq::<TeamView>::empty(), tikkers_from_sheet(tikkers_csv));
    match sheet_rows(getikt_csv) {
        Ok(rows) => if tick_rows_fit(cfg.cutoff_timestamp, start, rows) {
            tick_rows(cfg.cutoff_timestamp, start, rows)
        } else {
            start
        },
        Err(_) => start,
    }
}

/// The teams and players that the player sheet and the tag sheet give under
/// the configuration `cfg`: the tagged players, and the tagged teams with
/// their default data.
pub open spec fn game_from_sheets(cfg: Config, tikkers_csv: Seq<char>, getikt_csv: Seq<char>) -> (Seq<TeamView>, Seq<TikkerView>) {
    let tagged = game_tagged(cfg, tikkers_csv, getikt_csv);
    let teams = match default_teams_view(cfg.default_teams) {
        Some(d) => teams_configured(tagged.0, d),
        None => tagged.0,
    };
    (teams, tagged.1)
}

/// Law: every team of a game has been tagged at least once: teams are made
/// only by tags, and the default team data changes only names and images.
pub proof fn law_game_teams_all_tagged(cfg: Config, tikkers_csv: Seq<char>, getikt_csv: Seq<char>)
    ensures
        all_tagged(game_from_sheets(cfg, tikkers_csv, getikt_csv).0),
{
    let start = (Seq::<TeamView>::empty(), tikkers_from_sheet(tikkers_csv));
    if let Ok(rows) = sheet_rows(getikt_csv) {
        law_tick_rows_keep_all_tagged(cfg.cutoff_timestamp, start, rows);
    }
    let tagged = game_tagged(cfg, tikkers_csv, getikt_csv);
    if let Some(d) = default_teams_view(cfg.default_teams) {
        law_config_touches_only_name_and_image(tagged.0, d);
        let teams = teams_configured(tagged.0, d);
        assert forall|i: int| 0 <= i < teams.len() implies (#[trigger] teams[i]).ticks >= 1 by {
            assert(teams[i].ticks == tagged.0[i].ticks);
        }
    }
}

/// The tags of the game in all: one per counting row of the tag sheet, where
/// the sheet reads and no count passes its counter; none otherwise.
pub open spec fn game_tags(cfg: Config, tikkers_csv: Seq<char>, getikt_csv: Seq<char>) -> nat {
    let players = tikkers_from_sheet(tikkers_csv);
    match sheet_rows(getikt_csv) {
        Ok(rows) => if tick_rows_fit(cfg.cutoff_timestamp, (Seq::<TeamView>::empty(), players), rows) {
            counting_rows(cfg.cutoff_timestamp, players, rows)
        } else {
            0
        },
        Err(_) => 0,
    }
}

/// Law: the teams of a game hold, in all, one tag per counting row of the
/// tag sheet: a row whose time stamp is relevant and whose password is a
/// player's.
pub proof fn law_game_tags_equal_counting_rows(cfg: Config, tikkers_csv: Seq<char>, getikt_csv: Seq<char>)
    ensures
        total_ticks(game_from_sheets(cfg, tikkers_csv, getikt_csv).0) == game_tags(cfg, tikkers_csv, getikt_csv),
{
    let start = (Seq::<TeamView>::empty(), tikkers_from_sheet(tikkers_csv));
    if let Ok(rows) = sheet_rows(getikt_csv) {
        law_tags_equal_counting_rows(cfg.cutoff_timestamp, start, rows);
    }
    let tagged = game_tagged(cfg, tikkers_csv, getikt_csv);
    if let Some(d) = default_teams_view(cfg.default_teams) {
        law_config_touches_only_name_and_image(tagged.0, d);
        let teams = teams_configured(tagged.0, d);
        assert forall|i: int| 0 <= i < teams.len() implies (#[trigger] teams[i]).ticks == tagged.0[i].ticks by {
            assert(teams[i] == (TeamView { name: teams[i].name, image_url: teams[i].image_url, ..tagged.0[i] }));
        }
        lemma_total_ticks_same_counts(teams, tagged.0);
    }
}

/// Law: with one reading of the clock, the three sheets give one game: any
/// two configurations that reading the settings sheet can give lead to the
/// same teams and players.
pub proof fn law_game_at_is_determined(
    tikkers_csv: Seq<char>,
    getikt_csv: Seq<char>,
    config_csv: Seq<char>,
    now: Option<Timestamp>,
    a: Config,
    b: Config,
)
    requires
        config_read_at(config_csv, now, a),
        config_read_at(config_csv, now, b),
    ensures
        game_from_sheets(a, tikkers_csv, getikt_csv) == game_from_sheets(b, tikkers_csv, getikt_csv),
{
    law_config_read_at_is_determined(config_csv, now, a, b);
}

/// Reads the configuration, the players and the tags, and gives the teams
/// and players of the game, reading the clock once for a relevance window
/// that reaches back from the present. Every three texts give a game: the
/// configuration sheet is read flexibly and a player or tag sheet that does
/// not read counts as empty.
pub fn parse_game_data_core(tikkers_csv: &str, getikt_csv: &str, config_csv: &str) -> (r: Result<GameData, String>)
    ensures
        r matches Ok(data) && exists|cfg: Config|
            config_read(config_csv@, cfg) && #[trigger] game_from_sheets(cfg, tikkers_csv@, getikt_csv@)
                == (data.teams@, data.tikkers@),
        r matches Ok(data) && exists|cfg: Config|
            config_read_now(config_csv@, cfg) && #[trigger] game_from_sheets(cfg, tikkers_csv@, getikt_csv@)
                == (data.teams@, data.tikkers@),
{
    let now = clock_now();
    let r = parse_game_data_at(tikkers_csv, getikt_csv, config_csv, now);
    proof {
        lemma_cutoff_after_all_possible(config_lines(config_records(config_csv@)->Ok_0).relevances, now);
        let data = r->Ok_0;
        let cfg = choose|cfg: Config|
            config_read_at(config_csv@, now, cfg) && #[trigger] game_from_sheets(cfg, tikkers_csv@, getikt_csv@)
                == (data.teams@, data.tikkers@);
        assert(config_read(config_csv@, cfg));
        let t = now->0;
        assert(is_post_epoch_reading(t) && config_read_at(config_csv@, Some(t), cfg));
        assert(config_read_now(config_csv@, cfg));
    }
    r
}

/// Reads the configuration, the players and the tags as `parse_game_data_core`
/// does, with the clock reading `now` for a window that reaches back from the
/// present.
pub fn parse_game_data_at(tikkers_csv: &str, getikt_csv: &str, config_csv: &str, now: Option<Timestamp>) -> (r: Result<GameData, String>)
    requires
        valid_reading(now),
    ensures
        r matches Ok(data) && exists|cfg: Config|
            config_read_at(config_csv@, now, cfg) && #[trigger] game_from_sheets(cfg, tikkers_csv@, getikt_csv@)
                == (data.teams@, data.tikkers@),
{
    let cfg = match config_from_csv_at(config_csv, now) {
        Ok(cfg) => cfg,
        Err(e) => {
            let mut msg = String::from_str("Error parsing config: ");
            msg.append(e.as_str());
            return Err(msg);
        },
    };
    let mut tikkers = match get_tikkers_from_google_sheet(tikkers_csv, &cfg) {
        Ok(t) => t,
        Err(e) => return Err(e),
    };
    let mut teams = Teams::new();
    populate_teams_from_google_sheet(getikt_csv, &mut teams, &mut tikkers, &cfg);
    teams.add_config(&cfg);
    let data = GameData { teams, tikkers };
    assert(game_from_sheets(cfg, tikkers_csv@, getikt_csv@) == (data.teams@, data.tikkers@));
    Ok(data)
}

} // verus!
