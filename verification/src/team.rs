//! The teams, the tags counted for them, and how the tag sheet fills them.
use vstd::prelude::*;
use crate::config::{default_teams_view, opt_text, relevant_time, Config, DefaultTeam, DefaultTeamView};
use crate::inport_info::{cell_or, read_sheet_dynamic, rows_view, sheet_rows, SheetRow};
use crate::location_date::{Locatie, Timestamp};
use crate::lookup::{first_index, lemma_first_index, lemma_first_index_is, lemma_first_index_none};
use crate::text::same_text;
use crate::tikker::{has_password, password_index, with_tiks_at, TikkerView, Tikkers};

verus! {

/// A team as the contracts see it; the counts are unbounded.
pub struct TeamView {
    pub name: Option<Seq<char>>,
    pub team_id: Seq<char>,
    pub image_url: Option<Seq<char>>,
    pub ticks: nat,
    pub points: nat,
    pub subgroup: Option<Seq<char>>,
    pub last_tick: Option<Timestamp>,
    pub last_point: Option<Timestamp>,
    pub last_loc: Option<Locatie>,
}

/// A team: its id, what is shown of it, and its counts.
#[derive(Debug)]
pub struct Team {
    pub name: Option<String>,
    pub team_id: String,
    pub image_url: Option<String>,
    pub ticks: u32,
    pub points: u32,
    pub subgroup: Option<String>,
    pub last_tick: Option<Timestamp>,
    pub last_point: Option<Timestamp>,
    pub last_loc: Option<Locatie>,
}

impl View for Team {
    type V = TeamView;

    open spec fn view(&self) -> TeamView {
        TeamView {
            name: opt_text(self.name),
            team_id: self.team_id@,
            image_url: opt_text(self.image_url),
            ticks: self.ticks as nat,
            points: self.points as nat,
            subgroup: opt_text(self.subgroup),
            last_tick: self.last_tick,
            last_point: self.last_point,
            last_loc: self.last_loc,
        }
    }
}

/// A new team with this id and nothing else.
pub open spec fn new_team_view(team_id: Seq<char>) -> TeamView {
    TeamView {
        name: None,
        team_id,
        image_url: None,
        ticks: 0,
        points: 0,
        subgroup: None,
        last_tick: None,
        last_point: None,
        last_loc: None,
    }
}

/// A team with one more tag.
pub open spec fn ticked(t: TeamView) -> TeamView {
    TeamView { ticks: t.ticks + 1, ..t }
}

/// A team with one more tag, made at `date`.
pub open spec fn ticked_at(t: TeamView, date: Timestamp) -> TeamView {
    TeamView { ticks: t.ticks + 1, last_tick: Some(date), ..t }
}

/// A team with its image and name taken from the default data, where set there.
pub open spec fn with_cfg(t: TeamView, d: DefaultTeamView) -> TeamView {
    TeamView {
        image_url: if d.image_url is Some {
            d.image_url
        } else {
            t.image_url
        },
        name: if d.name is Some {
            d.name
        } else {
            t.name
        },
        ..t
    }
}

/// Puts a copy of `source` into `target` where `source` holds a value.
pub fn add_if_some<T: Clone>(target: &mut Option<T>, source: &Option<T>)
    ensures
        match *source {
            Some(v) => *final(target) matches Some(w) && cloned(v, w),
            None => *final(target) == *old(target),
        },
{
    if let Some(value) = source {
        *target = Some(value.clone());
    }
}

impl Default for Team {
    fn default() -> (r: Self)
        ensures
            r@ == new_team_view(Seq::empty()),
    {
        Team {
            name: None,
            team_id: String::new(),
            image_url: None,
            ticks: 0,
            points: 0,
            subgroup: None,
            last_tick: None,
            last_point: None,
            last_loc: None,
        }
    }
}

impl Team {
    /// A new team with this id and no tags or points.
    pub fn new(team_id: String) -> (r: Self)
        ensures
            r@ == new_team_view(team_id@),
    {
        let mut team = Team::default();
        team.team_id = team_id;
        team
    }

    /// Counts one more tag.
    pub fn add_tick(&mut self)
        requires
            old(self).ticks < u32::MAX,
        ensures
            final(self)@ == ticked(old(self)@),
    {
        self.ticks += 1;
    }

    /// Counts one more tag, made at `tick_date`.
    pub fn add_tick_date(&mut self, tick_date: Timestamp)
        requires
            old(self).ticks < u32::MAX,
        ensures
            final(self)@ == ticked_at(old(self)@, tick_date),
    {
        self.add_tick();
        self.last_tick = Some(tick_date);
    }

    /// Adds points.
    pub fn add_points(&mut self, points: u32)
        requires
            old(self).points + points <= u32::MAX,
        ensures
            final(self)@ == (TeamView { points: old(self)@.points + points as nat, ..old(self)@ }),
    {
        self.points += points;
    }

    /// Adds points, scored at `point_date`.
    pub fn add_points_date(&mut self, points: u32, point_date: Timestamp)
        requires
            old(self).points + points <= u32::MAX,
        ensures
            final(self)@ == (TeamView {
                points: old(self)@.points + points as nat,
                last_point: Some(point_date),
                ..old(self)@
            }),
    {
        self.add_points(points);
        self.last_point = Some(point_date);
    }

    /// Records where the team was last seen.
    pub fn update_location(&mut self, locatie: Locatie)
        ensures
            final(self)@ == (TeamView { last_loc: Some(locatie), ..old(self)@ }),
    {
        self.last_loc = Some(locatie);
    }

    /// Sets the shown name.
    pub fn add_name(&mut self, name: String)
        ensures
            final(self)@ == (TeamView { name: Some(name@), ..old(self)@ }),
    {
        self.name = Some(name);
    }

    /// Takes the image and name from the team's default data, where set there.
    pub fn add_cfg(&mut self, team_cfg: &DefaultTeam)
        ensures
            final(self)@ == with_cfg(old(self)@, team_cfg@),
    {
        add_if_some(&mut self.image_url, &team_cfg.image_url);
        add_if_some(&mut self.name, &team_cfg.name);
    }
}

/// The team has this id.
pub open spec fn has_team_id(team_id: Seq<char>) -> spec_fn(TeamView) -> bool {
    |t: TeamView| t.team_id == team_id
}

/// The first team with this id.
pub open spec fn team_index(s: Seq<TeamView>, team_id: Seq<char>) -> Option<int> {
    first_index(s, has_team_id(team_id))
}

/// The teams after one tag for `team_id`: the first team with that id gets
/// it, or a new team with that id is added with it.
pub open spec fn teams_ticked(s: Seq<TeamView>, team_id: Seq<char>) -> Seq<TeamView> {
    match team_index(s, team_id) {
        Some(i) => s.update(i, ticked(s[i])),
        None => s.push(ticked(new_team_view(team_id))),
    }
}

/// As `teams_ticked`, the tag made at `date`.
pub open spec fn teams_ticked_at(s: Seq<TeamView>, team_id: Seq<char>, date: Timestamp) -> Seq<TeamView> {
    match team_index(s, team_id) {
        Some(i) => s.update(i, ticked_at(s[i], date)),
        None => s.push(ticked_at(new_team_view(team_id), date)),
    }
}

/// The teams after taking the default data in order: each entry with an id
/// goes to the first team with that id, if there is one.
pub open spec fn teams_configured(s: Seq<TeamView>, defaults: Seq<DefaultTeamView>) -> Seq<TeamView>
    decreases defaults.len(),
{
    if defaults.len() == 0 {
        s
    } else {
        let prev = teams_configured(s, defaults.drop_last());
        let d = defaults.last();
        match d.team_id {
            None => prev,
            Some(id) => match team_index(prev, id) {
                None => prev,
                Some(i) => prev.update(i, with_cfg(prev[i], d)),
            },
        }
    }
}

/// The views of a list of teams.
pub open spec fn teams_view(list: Seq<Team>) -> Seq<TeamView> {
    list.map_values(|t: Team| t@)
}

/// Replacing one team in the list replaces its view.
pub proof fn lemma_teams_view_update(list: Seq<Team>, i: int, t: Team)
    requires
        0 <= i < list.len(),
    ensures
        teams_view(list.update(i, t)) == teams_view(list).update(i, t@),
{
    assert(teams_view(list.update(i, t)) =~= teams_view(list).update(i, t@));
}

/// All teams, in the order they were first tagged.
#[derive(Debug)]
pub struct Teams {
    pub team_list: Vec<Team>,
}

impl View for Teams {
    type V = Seq<TeamView>;

    open spec fn view(&self) -> Seq<TeamView> {
        teams_view(self.team_list@)
    }
}

impl Team {
    /// A team with the same data.
    pub(crate) fn copy(&self) -> (r: Team)
        ensures
            r@ == self@,
    {
        Team {
            name: self.name.clone(),
            team_id: self.team_id.clone(),
            image_url: self.image_url.clone(),
            ticks: self.ticks,
            points: self.points,
            subgroup: self.subgroup.clone(),
            last_tick: self.last_tick,
            last_point: self.last_point,
            last_loc: self.last_loc,
        }
    }
}

impl Teams {
    /// The same teams, in the same order.
    pub(crate) fn copy(&self) -> (r: Teams)
        ensures
            r@ == self@,
    {
        let mut list: Vec<Team> = Vec::new();
        let mut i: usize = 0;
        while i < self.team_list.len()
            invariant
                i <= self.team_list@.len(),
                teams_view(list@) == self@.subrange(0, i as int),
            decreases self.team_list@.len() - i,
        {
            let t = self.team_list[i].copy();
            let ghost before = list@;
            list.push(t);
            assert(teams_view(list@) =~= teams_view(before).push(t@));
            assert(self@.subrange(0, i + 1) =~= self@.subrange(0, i as int).push(self@[i as int]));
            i += 1;
        }
        assert(self@.subrange(0, i as int) =~= self@);
        Teams { team_list: list }
    }

    /// No teams.
    pub fn new() -> (r: Self)
        ensures
            r@ == Seq::<TeamView>::empty(),
    {
        let r = Teams { team_list: Vec::new() };
        assert(r@ =~= Seq::<TeamView>::empty());
        r
    }

    /// Adds a team at the end.
    pub fn add_team(&mut self, team: Team)
        ensures
            final(self)@ == old(self)@.push(team@),
    {
        self.team_list.push(team);
        assert(self@ =~= old(self)@.push(team@));
    }

    /// The position of the first team with this id.
    pub(crate) fn position_by_id(&self, team_id: &str) -> (r: Option<usize>)
        ensures
            match r {
                Some(i) => team_index(self@, team_id@) == Some(i as int) && i
                    < self.team_list@.len(),
                None => team_index(self@, team_id@) is None,
            },
    {
        let n: usize = self.team_list.len();
        let mut i: usize = 0;
        while i < n
            invariant
                n == self.team_list@.len(),
                i <= n,
                forall|j: int| 0 <= j < i ==> !(#[trigger] has_team_id(team_id@)(self@[j])),
            decreases n - i,
        {
            if same_text(self.team_list[i].team_id.as_str(), team_id) {
                proof {
                    lemma_first_index_is(self@, has_team_id(team_id@), i as int);
                }
                return Some(i);
            }
            i += 1;
        }
        proof {
            lemma_first_index_none(self@, has_team_id(team_id@));
        }
        None
    }

    /// The first team with this id, to change in place.
    pub fn get_team_by_id(&mut self, team_id: &str) -> (r: Option<&mut Team>)
        ensures
            match team_index(old(self)@, team_id@) {
                Some(i) => r matches Some(t) && *t == old(self).team_list@[i]
                    && final(self).team_list@ == old(self).team_list@.update(i, *final(t)),
                None => r is None && final(self).team_list@ == old(self).team_list@,
            },
    {
        match self.position_by_id(team_id) {
            Some(i) => Some(&mut self.team_list[i]),
            None => None,
        }
    }

    /// Counts one tag for the first team with this id, or adds a new team
    /// with this id and that one tag. Where no two teams shared an id, none
    /// do after, and exactly one team has this id.
    pub fn add_tick_to_existing_or_new_team(&mut self, team_id: &str)
        requires
            team_index(old(self)@, team_id@) matches Some(i) ==> old(self)@[i].ticks < u32::MAX,
        ensures
            final(self)@ == teams_ticked(old(self)@, team_id@),
            ids_distinct(old(self)@) ==> ids_distinct(final(self)@) && one_team_with_id(
                final(self)@,
                team_id@,
            ),
    {
        proof {
            lemma_first_index(old(self)@, has_team_id(team_id@));
            if ids_distinct(old(self)@) {
                law_tick_keeps_ids_distinct(old(self)@, team_id@, Timestamp { secs: 0, nanos: 0 });
            }
        }
        let ghost old_list = self.team_list@;
        if let Some(team) = self.get_team_by_id(team_id) {
            team.add_tick();
            proof {
                lemma_teams_view_update(old_list, team_index(old(self)@, team_id@)->0, *team);
            }
        } else {
            let mut new_team = Team::new(team_id.to_owned());
            new_team.add_tick();
            self.add_team(new_team);
        }
    }

    /// Counts one tag made at `tick_date` for the first team with this id, or
    /// adds a new team with this id and that one tag. Where no two teams
    /// shared an id, none do after, and exactly one team has this id.
    pub fn add_tick_and_date_to_existing_or_new_team(&mut self, team_id: &str, tick_date: Timestamp)
        requires
            team_index(old(self)@, team_id@) matches Some(i) ==> old(self)@[i].ticks < u32::MAX,
        ensures
            final(self)@ == teams_ticked_at(old(self)@, team_id@, tick_date),
            ids_distinct(old(self)@) ==> ids_distinct(final(self)@) && one_team_with_id(
                final(self)@,
                team_id@,
            ),
    {
        proof {
            lemma_first_index(old(self)@, has_team_id(team_id@));
            if ids_distinct(old(self)@) {
                law_tick_keeps_ids_distinct(old(self)@, team_id@, tick_date);
            }
        }
        let ghost old_list = self.team_list@;
        if let Some(team) = self.get_team_by_id(team_id) {
            team.add_tick_date(tick_date);
            proof {
                lemma_teams_view_update(old_list, team_index(old(self)@, team_id@)->0, *team);
            }
        } else {
            let mut new_team = Team::new(team_id.to_owned());
            new_team.add_tick_date(tick_date);
            self.add_team(new_team);
        }
    }

    /// Gives the teams their image and name from the default team data.
    pub fn add_config(&mut self, cfg: &Config)
        ensures
            final(self)@ == match default_teams_view(cfg.default_teams) {
                Some(d) => teams_configured(old(self)@, d),
                None => old(self)@,
            },
    {
        if let Some(team_cfg_vec) = &cfg.default_teams {
            let ghost dv = team_cfg_vec@.map_values(|t: DefaultTeam| t@);
            let mut j: usize = 0;
            while j < team_cfg_vec.len()
                invariant
                    dv == team_cfg_vec@.map_values(|t: DefaultTeam| t@),
                    j <= team_cfg_vec.len(),
                    self@ == teams_configured(old(self)@, dv.subrange(0, j as int)),
                decreases team_cfg_vec.len() - j,
            {
                let team_cfg = &team_cfg_vec[j];
                let ghost prev = self@;
                assert(dv.subrange(0, j + 1).drop_last() =~= dv.subrange(0, j as int));
                assert(dv.subrange(0, j + 1).last() == team_cfg@);
                if let Some(team_id) = &team_cfg.team_id {
                    proof {
                        lemma_first_index(prev, has_team_id(team_id@));
                    }
                    let ghost old_list = self.team_list@;
                    if let Some(team) = self.get_team_by_id(team_id.as_str()) {
                        team.add_cfg(team_cfg);
                        proof {
                            lemma_teams_view_update(old_list, team_index(prev, team_id@)->0, *team);
                        }
                    }
                }
                j += 1;
            }
            assert(dv.subrange(0, j as int) =~= dv);
        }
    }
}


/// Teams and players, as the tag sheet changes them together.
pub type GameState = (Seq<TeamView>, Seq<TikkerView>);

/// One row of the tag sheet applied to teams and players. A row counts where
/// its "Tijdstempel" (taken as "0" where missing) is a relevant time stamp and
/// its "Wachtwoord" is some player's password: that player gets a tag, and so
/// does the team under "Team index" (missing texts read as empty).
pub open spec fn tick_row(cutoff: Option<Timestamp>, state: GameState, row: Seq<(Seq<char>, Seq<char>)>) -> GameState {
    match relevant_time(cutoff, cell_or(row, "Tijdstempel"@, "0"@)) {
        None => state,
        Some(ts) => {
            let team_id = cell_or(row, "Team index"@, ""@);
            let paswoord = cell_or(row, "Wachtwoord"@, ""@);
            match password_index(state.1, paswoord) {
                None => state,
                Some(i) => (
                    teams_ticked_at(state.0, team_id, ts),
                    state.1.update(i, with_tiks_at(state.1[i], 1, ts)),
                ),
            }
        },
    }
}

/// The rows of the tag sheet applied in order.
pub open spec fn tick_rows(cutoff: Option<Timestamp>, state: GameState, rows: Seq<Seq<(Seq<char>, Seq<char>)>>) -> GameState
    decreases rows.len(),
{
    if rows.len() == 0 {
        state
    } else {
        tick_row(cutoff, tick_rows(cutoff, state, rows.drop_last()), rows.last())
    }
}

/// Every count fits its counter.
pub open spec fn counts_fit(state: GameState) -> bool {
    &&& forall|i: int| 0 <= i < state.0.len() ==> (#[trigger] state.0[i]).ticks <= u32::MAX
        && state.0[i].points <= u32::MAX
    &&& forall|i: int| 0 <= i < state.1.len() ==> (#[trigger] state.1[i]).tiks <= u32::MAX
}

/// No count goes past its counter while the rows are applied.
pub open spec fn tick_rows_fit(cutoff: Option<Timestamp>, state: GameState, rows: Seq<Seq<(Seq<char>, Seq<char>)>>) -> bool {
    forall|k: int| 0 <= k <= rows.len() ==> counts_fit(#[trigger] tick_rows(cutoff, state, rows.subrange(0, k)))
}

/// A row that counts leaves every count within its counter, where the counts
/// it raises are below the counter's limit.
proof fn lemma_tick_row_fits(cutoff: Option<Timestamp>, state: GameState, row: Seq<(Seq<char>, Seq<char>)>)
    requires
        counts_fit(state),
        relevant_time(cutoff, cell_or(row, "Tijdstempel"@, "0"@)) is Some ==> (
        password_index(state.1, cell_or(row, "Wachtwoord"@, ""@)) matches Some(i) ==> (state.1[i].tiks
            < u32::MAX && (team_index(state.0, cell_or(row, "Team index"@, ""@)) matches Some(j)
            ==> state.0[j].ticks < u32::MAX))),
    ensures
        counts_fit(tick_row(cutoff, state, row)),
{
    if let Some(ts) = relevant_time(cutoff, cell_or(row, "Tijdstempel"@, "0"@)) {
        let team_id = cell_or(row, "Team index"@, ""@);
        let paswoord = cell_or(row, "Wachtwoord"@, ""@);
        lemma_first_index(state.1, has_password(paswoord));
        lemma_first_index(state.0, has_team_id(team_id));
        if let Some(i) = password_index(state.1, paswoord) {
            let next = tick_row(cutoff, state, row);
            assert forall|j: int| 0 <= j < next.0.len() implies (#[trigger] next.0[j]).ticks
                <= u32::MAX && next.0[j].points <= u32::MAX by {
                if j < state.0.len() {
                    assert(state.0[j].ticks <= u32::MAX);
                }
            }
            assert forall|j: int| 0 <= j < next.1.len() implies (#[trigger] next.1[j]).tiks
                <= u32::MAX by {
                assert(state.1[j].tiks <= u32::MAX);
            }
        }
    }
}

/// Applies the rows of the tag sheet to the teams and players as
/// `populate_teams_from_rows` does, stopping where a count would pass its
/// counter. Gives back whether no count would; only then are the teams and
/// players those that the rows give.
fn apply_rows_checked(rows: &Vec<SheetRow>, teams: &mut Teams, tikkers: &mut Tikkers, cfg: &Config) -> (ok: bool)
    requires
        counts_fit((old(teams)@, old(tikkers)@)),
    ensures
        ok == tick_rows_fit(cfg.cutoff_timestamp, (old(teams)@, old(tikkers)@), rows_view(rows@)),
        ok ==> (final(teams)@, final(tikkers)@) == tick_rows(
            cfg.cutoff_timestamp,
            (old(teams)@, old(tikkers)@),
            rows_view(rows@),
        ),
{
    let ghost init: GameState = (teams@, tikkers@);
    let ghost rv = rows_view(rows@);
    let mut k: usize = 0;
    assert(rv.subrange(0, 0) =~= Seq::<Seq<(Seq<char>, Seq<char>)>>::empty());
    while k < rows.len()
        invariant
            rv == rows_view(rows@),
            init == (old(teams)@, old(tikkers)@),
            k <= rows.len(),
            forall|j: int| 0 <= j <= k ==> counts_fit(#[trigger] tick_rows(cfg.cutoff_timestamp, init, rv.subrange(0, j))),
            (teams@, tikkers@) == tick_rows(cfg.cutoff_timestamp, init, rv.subrange(0, k as int)),
        decreases rows.len() - k,
    {
        let ghost state: GameState = (teams@, tikkers@);
        let row = &rows[k];
        assert(rv.subrange(0, k + 1).drop_last() =~= rv.subrange(0, k as int));
        assert(rv.subrange(0, k + 1).last() == row@);
        let ghost next = tick_row(cfg.cutoff_timestamp, state, row@);
        assert(next == tick_rows(cfg.cutoff_timestamp, init, rv.subrange(0, k + 1)));
        assert(counts_fit(tick_rows(cfg.cutoff_timestamp, init, rv.subrange(0, k as int))));
        let tijdstempel = row.value_or("Tijdstempel", "0");
        if let Some(time_stamp) = cfg.is_relevent_time_stamp(tijdstempel.as_str()) {
            let team_id = row.value_or("Team index", "");
            let pasword = row.value_or("Wachtwoord", "");
            proof {
                lemma_first_index(tikkers@, has_password(pasword@));
                lemma_first_index(teams@, has_team_id(team_id@));
            }
            if let Some(i) = tikkers.position_by_password(pasword.as_str()) {
                if tikkers.tikker_list[i].tiks == 4294967295u32 {
                    assert(next.1[i as int].tiks > u32::MAX);
                    assert(!counts_fit(tick_rows(cfg.cutoff_timestamp, init, rv.subrange(0, k + 1))));
                    return false;
                }
                if let Some(j) = teams.position_by_id(team_id.as_str()) {
                    if teams.team_list[j].ticks == 4294967295u32 {
                        assert(next.0[j as int].ticks > u32::MAX);
                        assert(!counts_fit(tick_rows(cfg.cutoff_timestamp, init, rv.subrange(0, k + 1))));
                        return false;
                    }
                }
            }
            if tikkers.add_tik_with_date_by_paswoord(pasword.as_str(), time_stamp, 1).is_some() {
                teams.add_tick_and_date_to_existing_or_new_team(team_id.as_str(), time_stamp);
            }
        }
        proof {
            lemma_tick_row_fits(cfg.cutoff_timestamp, state, row@);
        }
        k += 1;
    }
    assert(rv.subrange(0, k as int) =~= rv);
    true
}

/// Applies the rows of the tag sheet to the teams and players: for each row
/// with a relevant time stamp whose password is a player's, that player and
/// the row's team each get a tag made at that time.
pub fn populate_teams_from_rows(rows: &Vec<SheetRow>, teams: &mut Teams, tikkers: &mut Tikkers, cfg: &Config)
    requires
        tick_rows_fit(cfg.cutoff_timestamp, (old(teams)@, old(tikkers)@), rows_view(rows@)),
    ensures
        (final(teams)@, final(tikkers)@) == tick_rows(
            cfg.cutoff_timestamp,
            (old(teams)@, old(tikkers)@),
            rows_view(rows@),
        ),
{
    assert(rows_view(rows@).subrange(0, 0) =~= Seq::<Seq<(Seq<char>, Seq<char>)>>::empty());
    assert(counts_fit(tick_rows(cfg.cutoff_timestamp, (teams@, tikkers@), rows_view(rows@).subrange(0, 0))));
    let ok = apply_rows_checked(rows, teams, tikkers, cfg);
    assert(ok);
}

/// Applies the rows of the tag sheet to the teams and players (see
/// `populate_teams_from_rows`) where no count would pass its counter, and
/// says whether it did; otherwise nothing changes.
pub fn populate_teams_from_rows_if_fit(rows: &Vec<SheetRow>, teams: &mut Teams, tikkers: &mut Tikkers, cfg: &Config) -> (ok: bool)
    ensures
        ok == tick_rows_fit(cfg.cutoff_timestamp, (old(teams)@, old(tikkers)@), rows_view(rows@)),
        ok ==> (final(teams)@, final(tikkers)@) == tick_rows(
            cfg.cutoff_timestamp,
            (old(teams)@, old(tikkers)@),
            rows_view(rows@),
        ),
        !ok ==> final(teams)@ == old(teams)@ && final(tikkers)@ == old(tikkers)@,
{
    let mut new_teams = teams.copy();
    let mut new_tikkers = tikkers.copy();
    proof {
        lemma_counts_fit_views(&new_teams, &new_tikkers);
    }
    let ok = apply_rows_checked(rows, &mut new_teams, &mut new_tikkers, cfg);
    if ok {
        *teams = new_teams;
        *tikkers = new_tikkers;
    }
    ok
}

/// Reads the tag sheet and applies its rows to the teams and players (see
/// `populate_teams_from_rows`). Nothing changes where the sheet does not
/// read, or where some count would pass its counter.
pub fn populate_teams_from_google_sheet(getikt_csv: &str, teams: &mut Teams, tikkers: &mut Tikkers, cfg: &Config)
    ensures
        match sheet_rows(getikt_csv@) {
            Ok(rows) => if tick_rows_fit(cfg.cutoff_timestamp, (old(teams)@, old(tikkers)@), rows) {
                (final(teams)@, final(tikkers)@) == tick_rows(
                    cfg.cutoff_timestamp,
                    (old(teams)@, old(tikkers)@),
                    rows,
                )
            } else {
                final(teams)@ == old(teams)@ && final(tikkers)@ == old(tikkers)@
            },
            Err(_) => final(teams)@ == old(teams)@ && final(tikkers)@ == old(tikkers)@,
        },
{
    match read_sheet_dynamic(getikt_csv) {
        Ok(structure) => {
            populate_teams_from_rows_if_fit(&structure, teams, tikkers, cfg);
        },
        Err(_) => {},
    }
}

/// The counts of teams and players held in `u32` fit their counters.
proof fn lemma_counts_fit_views(teams: &Teams, tikkers: &Tikkers)
    ensures
        counts_fit((teams@, tikkers@)),
{
    assert forall|i: int| 0 <= i < teams@.len() implies (#[trigger] teams@[i]).ticks <= u32::MAX
        && teams@[i].points <= u32::MAX by {
        assert(teams@[i] == teams.team_list@[i]@);
    }
    assert forall|i: int| 0 <= i < tikkers@.len() implies (#[trigger] tikkers@[i]).tiks <= u32::MAX by {
        assert(tikkers@[i] == tikkers.tikker_list@[i]@);
    }
}

/// The tags of all teams together.
pub open spec fn total_ticks(s: Seq<TeamView>) -> int
    decreases s.len(),
{
    if s.len() == 0 {
        0
    } else {
        total_ticks(s.drop_last()) + s.last().ticks
    }
}

/// The tags of all players together.
pub open spec fn total_tiks(s: Seq<TikkerView>) -> int
    decreases s.len(),
{
    if s.len() == 0 {
        0
    } else {
        total_tiks(s.drop_last()) + s.last().tiks
    }
}

proof fn lemma_total_ticks_update(s: Seq<TeamView>, i: int, t: TeamView)
    requires
        0 <= i < s.len(),
    ensures
        total_ticks(s.update(i, t)) == total_ticks(s) - s[i].ticks + t.ticks,
    decreases s.len(),
{
    if i < s.len() - 1 {
        assert(s.update(i, t).drop_last() =~= s.drop_last().update(i, t));
        lemma_total_ticks_update(s.drop_last(), i, t);
    } else {
        assert(s.update(i, t).drop_last() =~= s.drop_last());
    }
}

proof fn lemma_total_tiks_update(s: Seq<TikkerView>, i: int, t: TikkerView)
    requires
        0 <= i < s.len(),
    ensures
        total_tiks(s.update(i, t)) == total_tiks(s) - s[i].tiks + t.tiks,
    decreases s.len(),
{
    if i < s.len() - 1 {
        assert(s.update(i, t).drop_last() =~= s.drop_last().update(i, t));
        lemma_total_tiks_update(s.drop_last(), i, t);
    } else {
        assert(s.update(i, t).drop_last() =~= s.drop_last());
    }
}

/// The same players, with the same names and passwords, in the same order.
pub open spec fn same_players(a: Seq<TikkerView>, b: Seq<TikkerView>) -> bool {
    &&& a.len() == b.len()
    &&& forall|i: int| 0 <= i < a.len() ==> (#[trigger] a[i]).name == b[i].name && a[i].paswoord == b[i].paswoord
}

/// Every team that was there is still there, at the same place, with the same id.
pub open spec fn teams_kept(a: Seq<TeamView>, b: Seq<TeamView>) -> bool {
    &&& a.len() <= b.len()
    &&& forall|i: int| 0 <= i < a.len() ==> (#[trigger] a[i]).team_id == b[i].team_id
}

/// Law: applying the tag sheet hands out tags in pairs: every counting row
/// gives one tag to a player and one to a team, so the tags that all teams
/// gain equal the tags that all players gain. The players stay the same
/// people, and no team is lost or renamed.
pub proof fn law_tags_come_in_pairs(cutoff: Option<Timestamp>, state: GameState, rows: Seq<Seq<(Seq<char>, Seq<char>)>>)
    ensures
        total_ticks(tick_rows(cutoff, state, rows).0) - total_ticks(state.0) == total_tiks(
            tick_rows(cutoff, state, rows).1,
        ) - total_tiks(state.1),
        same_players(state.1, tick_rows(cutoff, state, rows).1),
        teams_kept(state.0, tick_rows(cutoff, state, rows).0),
    decreases rows.len(),
{
    if rows.len() > 0 {
        law_tags_come_in_pairs(cutoff, state, rows.drop_last());
        let prev = tick_rows(cutoff, state, rows.drop_last());
        let row = rows.last();
        if let Some(ts) = relevant_time(cutoff, cell_or(row, "Tijdstempel"@, "0"@)) {
            let team_id = cell_or(row, "Team index"@, ""@);
            let paswoord = cell_or(row, "Wachtwoord"@, ""@);
            lemma_first_index(prev.1, has_password(paswoord));
            lemma_first_index(prev.0, has_team_id(team_id));
            if let Some(i) = password_index(prev.1, paswoord) {
                lemma_total_tiks_update(prev.1, i, with_tiks_at(prev.1[i], 1, ts));
                match team_index(prev.0, team_id) {
                    Some(j) => {
                        lemma_total_ticks_update(prev.0, j, ticked_at(prev.0[j], ts));
                    },
                    None => {
                        let pushed = prev.0.push(ticked_at(new_team_view(team_id), ts));
                        assert(pushed.drop_last() =~= prev.0);
                    },
                }
            }
        }
    }
}

/// No two teams have the same id.
pub open spec fn ids_distinct(s: Seq<TeamView>) -> bool {
    forall|i: int, j: int| 0 <= i < j < s.len() ==> (#[trigger] s[i]).team_id != (#[trigger] s[j]).team_id
}

/// Exactly one team has the id `team_id`.
pub open spec fn one_team_with_id(s: Seq<TeamView>, team_id: Seq<char>) -> bool {
    exists|i: int|
        0 <= i < s.len() && (#[trigger] s[i]).team_id == team_id && forall|j: int|
            0 <= j < s.len() && (#[trigger] s[j]).team_id == team_id ==> j == i
}

/// Law: a tag for a team never makes two teams with the same id: it goes to
/// the team with that id, and a new team is made only where there is none.
/// Afterwards exactly one team has that id.
pub proof fn law_tick_keeps_ids_distinct(s: Seq<TeamView>, team_id: Seq<char>, date: Timestamp)
    requires
        ids_distinct(s),
    ensures
        ids_distinct(teams_ticked(s, team_id)),
        ids_distinct(teams_ticked_at(s, team_id, date)),
        one_team_with_id(teams_ticked(s, team_id), team_id),
        one_team_with_id(teams_ticked_at(s, team_id, date), team_id),
{
    lemma_first_index(s, has_team_id(team_id));
    let a = teams_ticked(s, team_id);
    let b = teams_ticked_at(s, team_id, date);
    let w: int = match team_index(s, team_id) {
        Some(i) => i,
        None => s.len() as int,
    };
    assert(a[w].team_id == team_id);
    assert(b[w].team_id == team_id);
    assert forall|j: int| 0 <= j < a.len() && (#[trigger] a[j]).team_id == team_id implies j == w by {
        if j != w {
            if j < s.len() && w < s.len() {
                if j < w {
                    assert(s[j].team_id != s[w].team_id);
                } else {
                    assert(s[w].team_id != s[j].team_id);
                }
            } else if j < s.len() {
                assert(!has_team_id(team_id)(s[j]));
            }
        }
    }
    assert forall|j: int| 0 <= j < b.len() && (#[trigger] b[j]).team_id == team_id implies j == w by {
        if j != w {
            if j < s.len() && w < s.len() {
                if j < w {
                    assert(s[j].team_id != s[w].team_id);
                } else {
                    assert(s[w].team_id != s[j].team_id);
                }
            } else if j < s.len() {
                assert(!has_team_id(team_id)(s[j]));
            }
        }
    }
    if team_index(s, team_id) is None {
        let a = teams_ticked(s, team_id);
        let b = teams_ticked_at(s, team_id, date);
        assert forall|i: int, j: int| 0 <= i < j < a.len() implies (#[trigger] a[i]).team_id != (#[trigger] a[j]).team_id by {
            if j == s.len() {
                assert(!has_team_id(team_id)(s[i]));
            }
        }
        assert forall|i: int, j: int| 0 <= i < j < b.len() implies (#[trigger] b[i]).team_id != (#[trigger] b[j]).team_id by {
            if j == s.len() {
                assert(!has_team_id(team_id)(s[i]));
            }
        }
    }
}

/// Law: where the teams have distinct ids, they still have after the whole
/// tag sheet is applied.
pub proof fn law_tick_rows_keep_ids_distinct(cutoff: Option<Timestamp>, state: GameState, rows: Seq<Seq<(Seq<char>, Seq<char>)>>)
    requires
        ids_distinct(state.0),
    ensures
        ids_distinct(tick_rows(cutoff, state, rows).0),
    decreases rows.len(),
{
    if rows.len() > 0 {
        law_tick_rows_keep_ids_distinct(cutoff, state, rows.drop_last());
        let prev = tick_rows(cutoff, state, rows.drop_last());
        let row = rows.last();
        if let Some(ts) = relevant_time(cutoff, cell_or(row, "Tijdstempel"@, "0"@)) {
            law_tick_keeps_ids_distinct(prev.0, cell_or(row, "Team index"@, ""@), ts);
        }
    }
}

/// The row counts for the players `players`: its time stamp (taken as "0"
/// where missing) is relevant and its password is some player's.
pub open spec fn row_counts(cutoff: Option<Timestamp>, players: Seq<TikkerView>, row: Seq<(Seq<char>, Seq<char>)>) -> bool {
    &&& relevant_time(cutoff, cell_or(row, "Tijdstempel"@, "0"@)) is Some
    &&& password_index(players, cell_or(row, "Wachtwoord"@, ""@)) is Some
}

/// How many of the rows count for the players `players`.
pub open spec fn counting_rows(cutoff: Option<Timestamp>, players: Seq<TikkerView>, rows: Seq<Seq<(Seq<char>, Seq<char>)>>) -> nat
    decreases rows.len(),
{
    if rows.len() == 0 {
        0
    } else {
        counting_rows(cutoff, players, rows.drop_last()) + if row_counts(cutoff, players, rows.last()) {
            1nat
        } else {
            0nat
        }
    }
}

/// Players with the same passwords in the same order are found alike by
/// password.
proof fn lemma_password_index_same_players(a: Seq<TikkerView>, b: Seq<TikkerView>, paswoord: Seq<char>)
    requires
        same_players(a, b),
    ensures
        password_index(a, paswoord) == password_index(b, paswoord),
{
    let p = has_password(paswoord);
    lemma_first_index(a, p);
    assert forall|j: int| 0 <= j < a.len() implies p(a[j]) == p(b[j]) by {
        assert(a[j].paswoord == b[j].paswoord);
    }
    match password_index(a, paswoord) {
        Some(i) => {
            assert forall|j: int| 0 <= j < i implies !p(#[trigger] b[j]) by {
                assert(!p(a[j]));
            }
            assert(p(a[i]));
            lemma_first_index_is(b, p, i);
        },
        None => {
            assert forall|j: int| 0 <= j < b.len() implies !p(#[trigger] b[j]) by {
                assert(!p(a[j]));
            }
            lemma_first_index_none(b, p);
        },
    }
}

/// Law: the tags that the tag sheet hands out are as many as its counting
/// rows: every team gains, and every player gains, one tag per row whose time
/// stamp is relevant and whose password is a player's.
pub proof fn law_tags_equal_counting_rows(cutoff: Option<Timestamp>, state: GameState, rows: Seq<Seq<(Seq<char>, Seq<char>)>>)
    ensures
        total_ticks(tick_rows(cutoff, state, rows).0) == total_ticks(state.0) + counting_rows(cutoff, state.1, rows),
        total_tiks(tick_rows(cutoff, state, rows).1) == total_tiks(state.1) + counting_rows(cutoff, state.1, rows),
    decreases rows.len(),
{
    if rows.len() > 0 {
        law_tags_equal_counting_rows(cutoff, state, rows.drop_last());
        law_tags_come_in_pairs(cutoff, state, rows.drop_last());
        let prev = tick_rows(cutoff, state, rows.drop_last());
        let row = rows.last();
        let team_id = cell_or(row, "Team index"@, ""@);
        let paswoord = cell_or(row, "Wachtwoord"@, ""@);
        lemma_password_index_same_players(state.1, prev.1, paswoord);
        if let Some(ts) = relevant_time(cutoff, cell_or(row, "Tijdstempel"@, "0"@)) {
            lemma_first_index(prev.1, has_password(paswoord));
            lemma_first_index(prev.0, has_team_id(team_id));
            if let Some(i) = password_index(prev.1, paswoord) {
                lemma_total_tiks_update(prev.1, i, with_tiks_at(prev.1[i], 1, ts));
                match team_index(prev.0, team_id) {
                    Some(j) => {
                        lemma_total_ticks_update(prev.0, j, ticked_at(prev.0[j], ts));
                    },
                    None => {
                        let pushed = prev.0.push(ticked_at(new_team_view(team_id), ts));
                        assert(pushed.drop_last() =~= prev.0);
                    },
                }
            }
        }
    }
}

/// Every team has at least one tag.
pub open spec fn all_tagged(s: Seq<TeamView>) -> bool {
    forall|i: int| 0 <= i < s.len() ==> (#[trigger] s[i]).ticks >= 1
}

/// Law: where every team has a tag, every team still has one after the tag
/// sheet: a team is only ever made together with its first tag.
pub proof fn law_tick_rows_keep_all_tagged(cutoff: Option<Timestamp>, state: GameState, rows: Seq<Seq<(Seq<char>, Seq<char>)>>)
    requires
        all_tagged(state.0),
    ensures
        all_tagged(tick_rows(cutoff, state, rows).0),
    decreases rows.len(),
{
    if rows.len() > 0 {
        law_tick_rows_keep_all_tagged(cutoff, state, rows.drop_last());
        let prev = tick_rows(cutoff, state, rows.drop_last());
        let row = rows.last();
        if let Some(ts) = relevant_time(cutoff, cell_or(row, "Tijdstempel"@, "0"@)) {
            let team_id = cell_or(row, "Team index"@, ""@);
            lemma_first_index(prev.0, has_team_id(team_id));
            let next = teams_ticked_at(prev.0, team_id, ts);
            assert forall|i: int| 0 <= i < next.len() implies (#[trigger] next[i]).ticks >= 1 by {
                if i < prev.0.len() {
                    assert(prev.0[i].ticks >= 1);
                }
            }
        }
    }
}

/// `b` is `a` after tags only: the teams of `a` stay at their places with
/// only their tag count and last tag time changed, and each team added after
/// them is a new team but for those two.
pub open spec fn teams_only_tagged(a: Seq<TeamView>, b: Seq<TeamView>) -> bool {
    &&& a.len() <= b.len()
    &&& forall|i: int| 0 <= i < a.len() ==> #[trigger] b[i] == (TeamView { ticks: b[i].ticks, last_tick: b[i].last_tick, ..a[i] })
    &&& forall|i: int| a.len() <= i < b.len() ==> #[trigger] b[i] == (TeamView {
        ticks: b[i].ticks,
        last_tick: b[i].last_tick,
        ..new_team_view(b[i].team_id)
    })
}

/// `b` is `a` after tags only: the same players in the same order, with only
/// their tag count and last tag time changed.
pub open spec fn players_only_tagged(a: Seq<TikkerView>, b: Seq<TikkerView>) -> bool {
    &&& a.len() == b.len()
    &&& forall|i: int| 0 <= i < a.len() ==> #[trigger] b[i] == (TikkerView { tiks: b[i].tiks, last_tick: b[i].last_tick, ..a[i] })
}

/// Law: the tag sheet changes nothing but tag counts and last tag times: of
/// teams the names, images, points, subgroups, last point times and places
/// stay, and new teams have none of these; of players the names, passwords
/// and places stay.
pub proof fn law_tick_rows_change_only_tags(cutoff: Option<Timestamp>, state: GameState, rows: Seq<Seq<(Seq<char>, Seq<char>)>>)
    ensures
        teams_only_tagged(state.0, tick_rows(cutoff, state, rows).0),
        players_only_tagged(state.1, tick_rows(cutoff, state, rows).1),
    decreases rows.len(),
{
    if rows.len() > 0 {
        law_tick_rows_change_only_tags(cutoff, state, rows.drop_last());
        let prev = tick_rows(cutoff, state, rows.drop_last());
        let row = rows.last();
        if let Some(ts) = relevant_time(cutoff, cell_or(row, "Tijdstempel"@, "0"@)) {
            let team_id = cell_or(row, "Team index"@, ""@);
            let paswoord = cell_or(row, "Wachtwoord"@, ""@);
            lemma_first_index(prev.1, has_password(paswoord));
            lemma_first_index(prev.0, has_team_id(team_id));
            if let Some(k) = password_index(prev.1, paswoord) {
                let next = tick_row(cutoff, prev, row);
                assert forall|i: int| 0 <= i < state.0.len() implies #[trigger] next.0[i] == (TeamView {
                    ticks: next.0[i].ticks,
                    last_tick: next.0[i].last_tick,
                    ..state.0[i]
                }) by {
                    assert(prev.0[i] == (TeamView { ticks: prev.0[i].ticks, last_tick: prev.0[i].last_tick, ..state.0[i] }));
                }
                assert forall|i: int| state.0.len() <= i < next.0.len() implies #[trigger] next.0[i] == (TeamView {
                    ticks: next.0[i].ticks,
                    last_tick: next.0[i].last_tick,
                    ..new_team_view(next.0[i].team_id)
                }) by {
                    if i < prev.0.len() {
                        assert(prev.0[i] == (TeamView {
                            ticks: prev.0[i].ticks,
                            last_tick: prev.0[i].last_tick,
                            ..new_team_view(prev.0[i].team_id)
                        }));
                    }
                }
                assert forall|i: int| 0 <= i < state.1.len() implies #[trigger] next.1[i] == (TikkerView {
                    tiks: next.1[i].tiks,
                    last_tick: next.1[i].last_tick,
                    ..state.1[i]
                }) by {
                    assert(prev.1[i] == (TikkerView { tiks: prev.1[i].tiks, last_tick: prev.1[i].last_tick, ..state.1[i] }));
                }
            }
        }
    }
}

/// Teams with the same tag counts, place by place, have the same tags in all.
pub proof fn lemma_total_ticks_same_counts(a: Seq<TeamView>, b: Seq<TeamView>)
    requires
        a.len() == b.len(),
        forall|i: int| 0 <= i < a.len() ==> (#[trigger] a[i]).ticks == b[i].ticks,
    ensures
        total_ticks(a) == total_ticks(b),
    decreases a.len(),
{
    if a.len() > 0 {
        assert forall|i: int| 0 <= i < a.len() - 1 implies (#[trigger] a.drop_last()[i]).ticks == b.drop_last()[i].ticks by {
            assert(a[i].ticks == b[i].ticks);
        }
        lemma_total_ticks_same_counts(a.drop_last(), b.drop_last());
        assert(a[a.len() - 1].ticks == b[b.len() - 1].ticks);
    }
}

/// Law: the default team data changes only the names and images of teams:
/// the same teams stay, in the same order, with the same ids, counts and
/// times.
pub proof fn law_config_touches_only_name_and_image(s: Seq<TeamView>, defaults: Seq<DefaultTeamView>)
    ensures
        teams_configured(s, defaults).len() == s.len(),
        forall|i: int| 0 <= i < s.len() ==> #[trigger] teams_configured(s, defaults)[i] == (TeamView {
            name: teams_configured(s, defaults)[i].name,
            image_url: teams_configured(s, defaults)[i].image_url,
            ..s[i]
        }),
    decreases defaults.len(),
{
    if defaults.len() > 0 {
        law_config_touches_only_name_and_image(s, defaults.drop_last());
        let prev = teams_configured(s, defaults.drop_last());
        let d = defaults.last();
        if let Some(id) = d.team_id {
            lemma_first_index(prev, has_team_id(id));
        }
    }
}

/// The name that the last default entry for `team_id` with a name gives.
pub open spec fn last_default_name(defaults: Seq<DefaultTeamView>, team_id: Seq<char>) -> Option<Seq<char>>
    decreases defaults.len(),
{
    if defaults.len() == 0 {
        None
    } else if defaults.last().team_id == Some(team_id) && defaults.last().name is Some {
        defaults.last().name
    } else {
        last_default_name(defaults.drop_last(), team_id)
    }
}

/// The image that the last default entry for `team_id` with an image gives.
pub open spec fn last_default_image(defaults: Seq<DefaultTeamView>, team_id: Seq<char>) -> Option<Seq<char>>
    decreases defaults.len(),
{
    if defaults.len() == 0 {
        None
    } else if defaults.last().team_id == Some(team_id) && defaults.last().image_url is Some {
        defaults.last().image_url
    } else {
        last_default_image(defaults.drop_last(), team_id)
    }
}

/// Law: where no two teams share an id, the default data that a team ends up
/// with is that of the last entry for its id that sets it: its name is the
/// last name given for its id, its image the last image, and where none is
/// given it keeps its own.
pub proof fn law_config_last_entry_wins(s: Seq<TeamView>, defaults: Seq<DefaultTeamView>)
    requires
        ids_distinct(s),
    ensures
        forall|i: int| 0 <= i < s.len() ==> (#[trigger] teams_configured(s, defaults)[i]).name == match last_default_name(defaults, s[i].team_id) {
            Some(n) => Some(n),
            None => s[i].name,
        },
        forall|i: int| 0 <= i < s.len() ==> (#[trigger] teams_configured(s, defaults)[i]).image_url == match last_default_image(defaults, s[i].team_id) {
            Some(m) => Some(m),
            None => s[i].image_url,
        },
    decreases defaults.len(),
{
    if defaults.len() > 0 {
        law_config_last_entry_wins(s, defaults.drop_last());
        law_config_touches_only_name_and_image(s, defaults.drop_last());
        let prev = teams_configured(s, defaults.drop_last());
        let cur = teams_configured(s, defaults);
        let d = defaults.last();
        assert forall|i: int| 0 <= i < s.len() implies prev[i].team_id == s[i].team_id by {
            assert(prev[i] == (TeamView { name: prev[i].name, image_url: prev[i].image_url, ..s[i] }));
        }
        if let Some(id) = d.team_id {
            lemma_first_index(prev, has_team_id(id));
            match team_index(prev, id) {
                None => {
                    assert forall|i: int| 0 <= i < s.len() implies s[i].team_id != id by {
                        assert(!has_team_id(id)(prev[i]));
                    }
                },
                Some(j) => {
                    assert forall|i: int| 0 <= i < s.len() && i != j implies s[i].team_id != id by {
                        assert(prev[j].team_id == s[j].team_id);
                        if i < j {
                            assert(s[i].team_id != s[j].team_id);
                        } else {
                            assert(s[j].team_id != s[i].team_id);
                        }
                    }
                    assert(cur[j] == with_cfg(prev[j], d));
                },
            }
        }
    }
}

} // verus!
