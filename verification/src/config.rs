//! The game's settings, read from the configuration sheet: which time stamps
//! count (the relevance window) and the default data of teams.
use vstd::prelude::*;
use crate::inport_info::{csv_records, read_csv_records};
use crate::location_date::{
    clock_now, is_clock_reading, is_post_epoch_reading, parse_tijdstempel, tijdstempel_of, ts_le, Timestamp,
    MIN_TIMESTAMP_SECS,
};
use crate::text::{
    contains_text, decimal_u32, lowercase, parse_u32, same_text, text_contains, to_lowercase,
    trim, trimmed,
};

verus! {

/// `serde_json::Value`, the catch-all of the settings' other fields; the
/// library only carries it.
#[verifier::external_type_specification]
#[verifier::external_body]
pub struct ExJsonValue(serde_json::Value);

/// Which time stamps count: those from `from` on, or else those within the
/// last `days` and `hours` before the configuration was read.
#[derive(Clone, Copy, Debug, PartialEq, Eq, Structural)]
pub struct Relevance {
    pub days: Option<u32>,
    pub hours: Option<u32>,
    pub from: Option<Timestamp>,
    pub include_inactive: Option<bool>,
}

/// A relevance window with nothing set.
pub open spec fn empty_relevance() -> Relevance {
    Relevance { days: None, hours: None, from: None, include_inactive: None }
}

impl Default for Relevance {
    fn default() -> (r: Self)
        ensures
            r == empty_relevance(),
    {
        Relevance { days: None, hours: None, from: None, include_inactive: None }
    }
}

/// Default data of one team, as the configuration sheet gives it.
#[derive(Debug, Clone)]
pub struct DefaultTeam {
    pub team_id: Option<String>,
    pub name: Option<String>,
    pub image_url: Option<String>,
    pub color: Option<String>,
    pub active: Option<bool>,
}

/// An optional text as an optional sequence of characters.
pub open spec fn opt_text(o: Option<String>) -> Option<Seq<char>> {
    match o {
        Some(s) => Some(s@),
        None => None,
    }
}

/// Default data of a team as the contracts see it.
pub struct DefaultTeamView {
    pub team_id: Option<Seq<char>>,
    pub name: Option<Seq<char>>,
    pub image_url: Option<Seq<char>>,
    pub color: Option<Seq<char>>,
    pub active: Option<bool>,
}

impl View for DefaultTeam {
    type V = DefaultTeamView;

    open spec fn view(&self) -> DefaultTeamView {
        DefaultTeamView {
            team_id: opt_text(self.team_id),
            name: opt_text(self.name),
            image_url: opt_text(self.image_url),
            color: opt_text(self.color),
            active: self.active,
        }
    }
}

/// Default team data with nothing set.
pub open spec fn empty_default_team() -> DefaultTeamView {
    DefaultTeamView { team_id: None, name: None, image_url: None, color: None, active: None }
}

/// At least one item of the default team data is set.
pub open spec fn partly_filled(t: DefaultTeamView) -> bool {
    t.team_id is Some || t.name is Some || t.image_url is Some || t.color is Some || t.active is Some
}

impl Default for DefaultTeam {
    fn default() -> (r: Self)
        ensures
            r@ == empty_default_team(),
    {
        DefaultTeam { team_id: None, name: None, image_url: None, color: None, active: None }
    }
}

impl DefaultTeam {
    /// Whether at least one item is set.
    pub fn partely_filled(&self) -> (r: bool)
        ensures
            r == partly_filled(self@),
    {
        if self.team_id.is_some() {
            return true
        }
        if self.name.is_some() {
            return true
        }
        if self.image_url.is_some() {
            return true
        }
        if self.color.is_some() {
            return true
        }
        if self.active.is_some() {
            return true
        }
        false
    }
}

/// Where the sheets may be found instead of the built-in places.
#[derive(Debug, Clone)]
pub struct SheetOverrides {
    pub enabled: Option<bool>,
    pub config_sheet_csv_url: Option<String>,
    pub assets_base_url: Option<String>,
}

/// Settings of the web page.
#[derive(Debug, Clone)]
pub struct UiConfig {
    pub compact_mode: Option<bool>,
    pub max_teams_per_page: Option<u32>,
    pub sort_by: Option<String>,
    pub show_last_activity: Option<bool>,
    pub timezone: Option<String>,
}

/// The game's settings. `cutoff_timestamp` is worked out from `relevance`
/// when the relevance line is read.
#[derive(Debug, Clone)]
pub struct Config {
    pub relevance: Option<Relevance>,
    pub default_teams: Option<Vec<DefaultTeam>>,
    pub sheet_overrides: Option<SheetOverrides>,
    pub ui: Option<UiConfig>,
    pub refresh_interval_seconds: Option<u32>,
    pub cutoff_timestamp: Option<Timestamp>,
    pub cutoff_iso: Option<String>,
    pub other: Option<serde_json::Value>,
}

/// Settings with nothing set.
pub open spec fn is_empty_config(cfg: Config) -> bool {
    &&& cfg.relevance is None
    &&& cfg.default_teams is None
    &&& cfg.sheet_overrides is None
    &&& cfg.ui is None
    &&& cfg.refresh_interval_seconds is None
    &&& cfg.cutoff_timestamp is None
    &&& cfg.cutoff_iso is None
    &&& cfg.other is None
}

impl Default for Config {
    fn default() -> (r: Self)
        ensures
            is_empty_config(r),
    {
        Config {
            relevance: None,
            default_teams: None,
            sheet_overrides: None,
            ui: None,
            refresh_interval_seconds: None,
            cutoff_timestamp: None,
            cutoff_iso: None,
            other: None,
        }
    }
}

/// The default teams as the contracts see them.
pub open spec fn default_teams_view(d: Option<Vec<DefaultTeam>>) -> Option<Seq<DefaultTeamView>> {
    match d {
        Some(v) => Some(v@.map_values(|t: DefaultTeam| t@)),
        None => None,
    }
}

/// The time stamp `parsed`, where there is one and it is not before `cutoff`.
pub open spec fn relevant_parsed(cutoff: Option<Timestamp>, parsed: Option<Timestamp>) -> Option<Timestamp> {
    match parsed {
        None => None,
        Some(t) => match cutoff {
            None => Some(t),
            Some(c) => if ts_le(c, t) {
                Some(t)
            } else {
                None
            },
        },
    }
}

/// The time stamp in `text`, where it is one and is not before `cutoff`.
pub open spec fn relevant_time(cutoff: Option<Timestamp>, text: Seq<char>) -> Option<Timestamp> {
    relevant_parsed(cutoff, tijdstempel_of(text))
}

/// Texts as sequences of characters.
pub open spec fn texts_view(s: Seq<String>) -> Seq<Seq<char>> {
    s.map_values(|x: String| x@)
}

/// One (token, value) pair of a relevance line applied to the window read so
/// far. Tokens are compared in lowercase: one that holds "hour" sets the
/// hours, "day" the days, "from" the start; a value that does not read is
/// passed over.
pub open spec fn relevance_token(rel: Relevance, token: Seq<char>, next: Seq<char>) -> Relevance {
    relevance_step(rel, lowercase(token), next, tijdstempel_of(next))
}

/// One pair of a relevance line, given its token already in lowercase, its
/// value, and the time stamp read from that value (used for "from" alone).
pub open spec fn relevance_step(
    rel: Relevance,
    lowered: Seq<char>,
    value: Seq<char>,
    value_stamp: Option<Timestamp>,
) -> Relevance {
    if contains_text(lowered, "hour"@) {
        match decimal_u32(value) {
            Some(n) => Relevance { hours: Some(n), ..rel },
            None => rel,
        }
    } else if contains_text(lowered, "day"@) {
        match decimal_u32(value) {
            Some(n) => Relevance { days: Some(n), ..rel },
            None => rel,
        }
    } else if contains_text(lowered, "from"@) {
        match value_stamp {
            Some(ts) => Relevance { from: Some(ts), ..rel },
            None => rel,
        }
    } else {
        rel
    }
}

/// The value after the token at `i`, trimmed; empty where there is none.
pub open spec fn value_after(rest: Seq<Seq<char>>, i: int) -> Seq<char> {
    if i + 1 < rest.len() {
        trimmed(rest[i + 1])
    } else {
        Seq::<char>::empty()
    }
}

/// The window after the first `k` (token, value) pairs.
pub open spec fn relevance_pairs(rest: Seq<Seq<char>>, k: nat) -> Relevance
    decreases k,
{
    if k == 0 {
        empty_relevance()
    } else {
        let i: int = 2 * (k - 1);
        relevance_token(relevance_pairs(rest, (k - 1) as nat), rest[i], value_after(rest, i))
    }
}

/// The relevance window that the tokens after the key of a relevance line
/// give: token at 0, 2, 4, ..., each with the value that follows it.
pub open spec fn relevance_of(rest: Seq<Seq<char>>) -> Relevance {
    relevance_pairs(rest, ((rest.len() + 1) / 2) as nat)
}

/// Seconds that the days of a window span.
pub open spec fn days_secs(rel: Relevance) -> int {
    match rel.days {
        Some(d) => d * 86400,
        None => 0,
    }
}

/// Seconds that the hours of a window span.
pub open spec fn hours_secs(rel: Relevance) -> int {
    match rel.hours {
        Some(h) => h * 3600,
        None => 0,
    }
}

/// The start of a window that reaches back `days` and `hours` from `now`;
/// `None` where that lies before the earliest representable date-time.
pub open spec fn relative_cutoff(rel: Relevance, now: Timestamp) -> Option<Timestamp> {
    let secs: int = now.secs - days_secs(rel) - hours_secs(rel);
    if MIN_TIMESTAMP_SECS <= secs {
        Some(Timestamp { secs: secs as i64, nanos: now.nanos })
    } else {
        None
    }
}

/// How the cutoff may change when a window is set: a start given by `from`
/// is taken as it is; otherwise the start is reckoned back from some reading
/// of the clock, and where that is not representable, or the clock cannot be
/// read, the cutoff stays.
pub open spec fn cutoff_update(rel: Relevance, before: Option<Timestamp>, after: Option<Timestamp>) -> bool {
    match rel.from {
        Some(f) => after == Some(f),
        None => after == before || exists|now: Timestamp|
            is_clock_reading(now) && after == match #[trigger] relative_cutoff(rel, now) {
                Some(c) => Some(c),
                None => before,
            },
    }
}

/// A clock reading that a caller may hand over: none, or a date-time in
/// range.
pub open spec fn valid_reading(now: Option<Timestamp>) -> bool {
    now matches Some(t) ==> is_clock_reading(t)
}

/// The cutoff after the window `rel` is set with the clock reading `now`:
/// its start where it has one; else the reading less its days and hours,
/// where there is a reading and that is representable; else `before`.
pub open spec fn cutoff_after(rel: Relevance, before: Option<Timestamp>, now: Option<Timestamp>) -> Option<Timestamp> {
    match rel.from {
        Some(f) => Some(f),
        None => match now {
            None => before,
            Some(t) => match relative_cutoff(rel, t) {
                Some(c) => Some(c),
                None => before,
            },
        },
    }
}

/// The cutoff after the windows `rels` are set in order, all with the clock
/// reading `now`.
pub open spec fn cutoff_after_all(rels: Seq<Relevance>, now: Option<Timestamp>) -> Option<Timestamp>
    decreases rels.len(),
{
    if rels.len() == 0 {
        None
    } else {
        cutoff_after(rels.last(), cutoff_after_all(rels.drop_last(), now), now)
    }
}

/// `after` is the cutoff that setting the window `rel` leaves when reckoned
/// from a reading of the clock at or after 1970: the window's start where it
/// has one, else that reading less its days and hours (`before` only where
/// that is not representable).
pub open spec fn cutoff_reckoned(rel: Relevance, before: Option<Timestamp>, after: Option<Timestamp>) -> bool {
    exists|t: Timestamp| is_post_epoch_reading(t) && after == #[trigger] cutoff_after(rel, before, Some(t))
}

/// A cutoff reckoned from the clock is one of the ways the cutoff may change.
pub proof fn lemma_cutoff_reckoned_is_update(rel: Relevance, before: Option<Timestamp>, after: Option<Timestamp>)
    requires
        cutoff_reckoned(rel, before, after),
    ensures
        cutoff_update(rel, before, after),
{
    let t = choose|t: Timestamp| is_post_epoch_reading(t) && after == #[trigger] cutoff_after(rel, before, Some(t));
    lemma_cutoff_after_is_update(rel, before, Some(t));
}

/// Law: setting a window without a start reckons the cutoff from the clock,
/// whatever the cutoff was before: it is a reading of the clock at or after
/// 1970 less the window's days and hours, wherever the window spans no more
/// than the time from the earliest representable date-time to 1970.
pub proof fn law_relative_window_reckoned_from_clock(rel: Relevance, before: Option<Timestamp>, after: Option<Timestamp>)
    requires
        cutoff_reckoned(rel, before, after),
        rel.from is None,
        days_secs(rel) + hours_secs(rel) <= 0 - MIN_TIMESTAMP_SECS,
    ensures
        exists|t: Timestamp|
            #[trigger] is_post_epoch_reading(t) && after == Some(
                Timestamp { secs: (t.secs - days_secs(rel) - hours_secs(rel)) as i64, nanos: t.nanos },
            ),
{
    let t = choose|t: Timestamp| is_post_epoch_reading(t) && after == #[trigger] cutoff_after(rel, before, Some(t));
    assert(is_post_epoch_reading(t) && after == Some(
        Timestamp { secs: (t.secs - days_secs(rel) - hours_secs(rel)) as i64, nanos: t.nanos },
    ));
}

/// Setting a window with a valid reading is one of the ways the cutoff may
/// change.
pub proof fn lemma_cutoff_after_is_update(rel: Relevance, before: Option<Timestamp>, now: Option<Timestamp>)
    requires
        valid_reading(now),
    ensures
        cutoff_update(rel, before, cutoff_after(rel, before, now)),
{
    if rel.from is None {
        if let Some(t) = now {
            let after = cutoff_after(rel, before, now);
            assert(is_clock_reading(t) && after == match relative_cutoff(rel, t) {
                Some(c) => Some(c),
                None => before,
            });
        }
    }
}

/// Setting windows in order with one valid reading leaves a cutoff that the
/// windows can leave.
pub proof fn lemma_cutoff_after_all_possible(rels: Seq<Relevance>, now: Option<Timestamp>)
    requires
        valid_reading(now),
    ensures
        cutoff_possible(rels, cutoff_after_all(rels, now)),
    decreases rels.len(),
{
    if rels.len() > 0 {
        lemma_cutoff_after_all_possible(rels.drop_last(), now);
        let prev = cutoff_after_all(rels.drop_last(), now);
        lemma_cutoff_after_is_update(rels.last(), prev, now);
        assert(cutoff_possible(rels.drop_last(), prev) && cutoff_update(
            rels.last(),
            prev,
            cutoff_after_all(rels, now),
        ));
    }
}

impl Relevance {
    /// The start of this window reckoned back from `now` by its days and
    /// hours; `None` where that is before the earliest representable date-time.
    pub fn cutoff_at(&self, now: Timestamp) -> (r: Option<Timestamp>)
        requires
            is_clock_reading(now),
        ensures
            r == relative_cutoff(*self, now),
    {
        let mut secs: i64 = now.secs;
        if let Some(d) = self.days {
            secs = secs - (d as i64) * 86400;
        }
        if let Some(h) = self.hours {
            secs = secs - (h as i64) * 3600;
        }
        if secs >= MIN_TIMESTAMP_SECS {
            Some(Timestamp { secs, nanos: now.nanos })
        } else {
            None
        }
    }
}

/// Reads the window from the tokens after the key of a relevance line.
pub fn relevance_from_tokens(rest: &Vec<String>) -> (r: Relevance)
    ensures
        r == relevance_of(texts_view(rest@)),
{
    let ghost v = texts_view(rest@);
    let mut rel = Relevance::default();
    let n: usize = rest.len();
    let pairs: usize = n / 2 + n % 2;
    assert(pairs == (v.len() + 1) / 2);
    let mut k: usize = 0;
    while k < pairs
        invariant
            v == texts_view(rest@),
            n == rest@.len(),
            pairs == (n + 1) / 2,
            k <= pairs,
            rel == relevance_pairs(v, k as nat),
        decreases pairs - k,
    {
        let i: usize = 2 * k;
        let token = to_lowercase(rest[i].as_str());
        let next: &str = if i + 1 < n {
            trim(rest[i + 1].as_str())
        } else {
            ""
        };
        proof {
            reveal_strlit("");
            assert(next@ == value_after(v, i as int));
        }
        let stamp = if text_contains(token.as_str(), "from") {
            parse_tijdstempel(next)
        } else {
            None
        };
        assert(relevance_step(rel, token@, next@, stamp) == relevance_step(
            rel,
            token@,
            next@,
            tijdstempel_of(next@),
        ));
        rel = apply_relevance_token(rel, token.as_str(), next, stamp);
        k += 1;
    }
    rel
}

/// Applies one pair of a relevance line to `rel`: `lowered` is the token in
/// lowercase, `value` the trimmed value after it, and `value_stamp` the time
/// stamp read from that value. A token holding "hour" sets the hours, else
/// one holding "day" the days, else one holding "from" the start; a value
/// that does not read leaves the window as it is.
pub fn apply_relevance_token(
    rel: Relevance,
    lowered: &str,
    value: &str,
    value_stamp: Option<Timestamp>,
) -> (r: Relevance)
    ensures
        r == relevance_step(rel, lowered@, value@, value_stamp),
{
    let mut rel = rel;
    let parsed = parse_u32(value);
    if text_contains(lowered, "hour") {
        if let Some(h) = parsed {
            rel.hours = Some(h);
        }
    } else if text_contains(lowered, "day") {
        if let Some(d) = parsed {
            rel.days = Some(d);
        }
    } else if text_contains(lowered, "from") {
        if let Some(ts) = value_stamp {
            rel.from = Some(ts);
        }
    }
    rel
}

/// One (name, value) pair of a team line applied to the team read so far.
/// Names are compared in lowercase; "active" is true where the lowercase
/// value holds "true". Unknown names are passed over.
pub open spec fn team_token(t: DefaultTeamView, name: Seq<char>, value: Seq<char>) -> DefaultTeamView {
    team_step(t, lowercase(name), value, lowercase(value))
}

/// One pair of a team line, given its name already in lowercase, its value,
/// and the value in lowercase (used for "active" alone).
pub open spec fn team_step(
    t: DefaultTeamView,
    lowered_name: Seq<char>,
    value: Seq<char>,
    lowered_value: Seq<char>,
) -> DefaultTeamView {
    let n = lowered_name;
    if n == "name"@ || n == "name:"@ {
        DefaultTeamView { name: Some(value), ..t }
    } else if n == "id"@ || n == "teamid"@ {
        DefaultTeamView { team_id: Some(value), ..t }
    } else if n == "image"@ || n == "image_paht"@ {
        DefaultTeamView { image_url: Some(value), ..t }
    } else if n == "color"@ {
        DefaultTeamView { color: Some(value), ..t }
    } else if n == "active"@ {
        DefaultTeamView { active: Some(contains_text(lowered_value, "true"@)), ..t }
    } else {
        t
    }
}

/// The team after the first `k` (name, value) pairs.
pub open spec fn team_pairs(rest: Seq<Seq<char>>, k: nat) -> DefaultTeamView
    decreases k,
{
    if k == 0 {
        empty_default_team()
    } else {
        let i: int = 2 * (k - 1);
        team_token(team_pairs(rest, (k - 1) as nat), rest[i], rest[i + 1])
    }
}

/// The team that the tokens after the key of a team line give: whole
/// (name, value) pairs from the start; a last lone token is passed over.
pub open spec fn team_of(rest: Seq<Seq<char>>) -> DefaultTeamView {
    team_pairs(rest, (rest.len() / 2) as nat)
}

/// The default teams with `t` added at the end, where it has anything set.
pub open spec fn with_team(d: Option<Seq<DefaultTeamView>>, t: DefaultTeamView) -> Option<
    Seq<DefaultTeamView>,
> {
    if partly_filled(t) {
        match d {
            Some(s) => Some(s.push(t)),
            None => Some(seq![t]),
        }
    } else {
        d
    }
}

/// Reads a team from the tokens after the key of a team line.
pub fn team_from_tokens(rest: &Vec<String>) -> (r: DefaultTeam)
    ensures
        r@ == team_of(texts_view(rest@)),
{
    let ghost v = texts_view(rest@);
    let mut team = DefaultTeam::default();
    let n: usize = rest.len();
    let pairs: usize = n / 2;
    let mut k: usize = 0;
    while k < pairs
        invariant
            v == texts_view(rest@),
            n == rest@.len(),
            pairs == n / 2,
            k <= pairs,
            team@ == team_pairs(v, k as nat),
        decreases pairs - k,
    {
        let i: usize = 2 * k;
        let name = to_lowercase(rest[i].as_str());
        let value = rest[i + 1].clone();
        let lower = if same_text(name.as_str(), "active") {
            to_lowercase(value.as_str())
        } else {
            String::new()
        };
        assert(team_step(team@, name@, value@, lower@) == team_step(
            team@,
            name@,
            value@,
            lowercase(value@),
        ));
        team = team_with_token(team, name.as_str(), value, lower.as_str());
        k += 1;
    }
    team
}

/// Applies one pair of a team line to `team`: `lowered_name` is the name in
/// lowercase, `value` the value after it, and `lowered_value` that value in
/// lowercase. "name" or "name:" sets the name, "id" or "teamid" the id,
/// "image" or "image_paht" the image, "color" the color, and "active" sets
/// whether the team is active (where the lowercase value holds "true");
/// other names leave the team as it is.
pub fn team_with_token(
    team: DefaultTeam,
    lowered_name: &str,
    value: String,
    lowered_value: &str,
) -> (r: DefaultTeam)
    ensures
        r@ == team_step(team@, lowered_name@, value@, lowered_value@),
{
    let mut team = team;
    if same_text(lowered_name, "name") || same_text(lowered_name, "name:") {
        team.name = Some(value);
    } else if same_text(lowered_name, "id") || same_text(lowered_name, "teamid") {
        team.team_id = Some(value);
    } else if same_text(lowered_name, "image") || same_text(lowered_name, "image_paht") {
        team.image_url = Some(value);
    } else if same_text(lowered_name, "color") {
        team.color = Some(value);
    } else if same_text(lowered_name, "active") {
        if text_contains(lowered_value, "true") {
            team.active = Some(true);
        } else {
            team.active = Some(false);
        }
    }
    team
}

/// `after` is `before` with only the cutoff possibly changed.
pub open spec fn same_but_cutoff(before: Config, after: Config) -> bool {
    after == Config { cutoff_timestamp: after.cutoff_timestamp, ..before }
}

impl Config {
    /// The time stamp in `tijdstempel`, where it is one and not before the
    /// cutoff (any time stamp counts where there is no cutoff).
    pub fn is_relevent_time_stamp(&self, tijdstempel: &str) -> (r: Option<Timestamp>)
        ensures
            r == relevant_time(self.cutoff_timestamp, tijdstempel@),
    {
        let parsed = parse_tijdstempel(tijdstempel);
        self.relevant_stamp(parsed)
    }

    /// The time stamp `parsed`, where there is one and it is not before the
    /// cutoff (any time stamp counts where there is no cutoff).
    pub fn relevant_stamp(&self, parsed: Option<Timestamp>) -> (r: Option<Timestamp>)
        ensures
            r == relevant_parsed(self.cutoff_timestamp, parsed),
    {
        let time_stamp = match parsed {
            Some(t) => t,
            None => return None,
        };
        match self.cutoff_timestamp {
            Some(v) => if v.not_after(&time_stamp) {
                Some(time_stamp)
            } else {
                None
            },
            None => Some(time_stamp),
        }
    }

    /// Sets the relevance window from the tokens of a relevance line, then
    /// works out the cutoff from it with the clock reading `now`.
    pub fn add_relevance_at(&mut self, rest: Vec<String>, now: Option<Timestamp>)
        requires
            valid_reading(now),
        ensures
            *final(self) == (Config {
                relevance: Some(relevance_of(texts_view(rest@))),
                cutoff_timestamp: cutoff_after(
                    relevance_of(texts_view(rest@)),
                    old(self).cutoff_timestamp,
                    now,
                ),
                ..*old(self)
            }),
    {
        let rel = relevance_from_tokens(&rest);
        self.relevance = Some(rel);
        self.add_cutoff_at(now);
    }

    /// Works out the cutoff from the relevance window with the clock reading
    /// `now`: the window's `from` where it has one, else the reading less its
    /// days and hours. Where there is no reading, or that lies before the
    /// earliest representable date-time, the cutoff stays as it was; without
    /// a window nothing changes.
    pub fn add_cutoff_at(&mut self, now: Option<Timestamp>)
        requires
            valid_reading(now),
        ensures
            same_but_cutoff(*old(self), *final(self)),
            final(self).cutoff_timestamp == match old(self).relevance {
                None => old(self).cutoff_timestamp,
                Some(rel) => cutoff_after(rel, old(self).cutoff_timestamp, now),
            },
    {
        if let Some(relevance) = self.relevance {
            if let Some(time_stamp) = relevance.from {
                self.cutoff_timestamp = Some(time_stamp);
            } else if let Some(t) = now {
                if let Some(c) = relevance.cutoff_at(t) {
                    self.cutoff_timestamp = Some(c);
                }
            }
        }
    }

    /// Sets the relevance window from the tokens of a relevance line, then
    /// works out the cutoff from it.
    pub fn add_relevance(&mut self, rest: Vec<String>)
        ensures
            *final(self) == (Config {
                relevance: Some(relevance_of(texts_view(rest@))),
                cutoff_timestamp: final(self).cutoff_timestamp,
                ..*old(self)
            }),
            cutoff_update(
                relevance_of(texts_view(rest@)),
                old(self).cutoff_timestamp,
                final(self).cutoff_timestamp,
            ),
            cutoff_reckoned(
                relevance_of(texts_view(rest@)),
                old(self).cutoff_timestamp,
                final(self).cutoff_timestamp,
            ),
    {
        let rel = relevance_from_tokens(&rest);
        self.relevance = Some(rel);
        self.add_cutuf_time_stamp_from();
    }

    /// Works out the cutoff from the relevance window: its `from` where it has
    /// one, else the current time (see `clock_now`) less its days and hours.
    /// Where the latter is before the earliest representable date-time, the
    /// cutoff stays as it was; without a window nothing changes.
    pub fn add_cutuf_time_stamp_from(&mut self)
        ensures
            same_but_cutoff(*old(self), *final(self)),
            match old(self).relevance {
                None => final(self).cutoff_timestamp == old(self).cutoff_timestamp,
                Some(rel) => cutoff_update(
                    rel,
                    old(self).cutoff_timestamp,
                    final(self).cutoff_timestamp,
                ),
            },
            match old(self).relevance {
                None => true,
                Some(rel) => cutoff_reckoned(
                    rel,
                    old(self).cutoff_timestamp,
                    final(self).cutoff_timestamp,
                ),
            },
    {
        if let Some(relevance) = self.relevance {
            if let Some(time_stamp) = relevance.from {
                self.cutoff_timestamp = Some(time_stamp);
                let ghost epoch = Timestamp { secs: 0, nanos: 0 };
                assert(is_post_epoch_reading(epoch) && self.cutoff_timestamp == cutoff_after(
                    relevance,
                    old(self).cutoff_timestamp,
                    Some(epoch),
                ));
            } else {
                let now = clock_now();
                self.add_cutoff_at(now);
                proof {
                    let t = now->0;
                    assert(is_post_epoch_reading(t) && self.cutoff_timestamp == cutoff_after(
                        relevance,
                        old(self).cutoff_timestamp,
                        Some(t),
                    ));
                    lemma_cutoff_reckoned_is_update(relevance, old(self).cutoff_timestamp, self.cutoff_timestamp);
                }
            }
        }
    }

    /// Adds the team of a team line to the default teams, where it has
    /// anything set.
    pub fn add_team_config(&mut self, rest: Vec<String>)
        ensures
            *final(self) == (Config { default_teams: final(self).default_teams, ..*old(self) }),
            default_teams_view(final(self).default_teams) == with_team(
                default_teams_view(old(self).default_teams),
                team_of(texts_view(rest@)),
            ),
    {
        let team = team_from_tokens(&rest);
        if team.partely_filled() {
            let mut list = match self.default_teams.take() {
                Some(l) => l,
                None => Vec::new(),
            };
            let ghost before = list@;
            list.push(team);
            assert(list@.map_values(|t: DefaultTeam| t@) =~= before.map_values(
                |t: DefaultTeam| t@,
            ).push(team@));
            self.default_teams = Some(list);
        }
        proof {
            if !partly_filled(team@) {
            } else if old(self).default_teams is None {
                assert(seq![team@] =~= Seq::<DefaultTeamView>::empty().push(team@));
            }
        }
    }
}


/// The texts with the empty texts at the end taken off.
pub open spec fn drop_trailing_empty(s: Seq<Seq<char>>) -> Seq<Seq<char>>
    decreases s.len(),
{
    if s.len() > 0 && s.last().len() == 0 {
        drop_trailing_empty(s.drop_last())
    } else {
        s
    }
}

/// The tokens of one record of the configuration sheet: every field trimmed,
/// with the empty ones at the end taken off.
pub open spec fn record_tokens(record: Seq<Seq<char>>) -> Seq<Seq<char>> {
    drop_trailing_empty(record.map_values(|f: Seq<char>| trimmed(f)))
}

/// What the lines of the configuration sheet read so far have set: every
/// relevance window in order, and the default teams.
pub struct ConfigLines {
    pub relevances: Seq<Relevance>,
    pub default_teams: Option<Seq<DefaultTeamView>>,
}

/// Nothing read yet.
pub open spec fn no_config_lines() -> ConfigLines {
    ConfigLines { relevances: Seq::empty(), default_teams: None }
}

/// A line with key "relevance_time" or "relevance" (in lowercase).
pub open spec fn is_relevance_key(key: Seq<char>) -> bool {
    key == "relevance_time"@ || key == "relevance"@
}

/// A line with key "team_config" or "teamconfig" (in lowercase).
pub open spec fn is_team_key(key: Seq<char>) -> bool {
    key == "team_config"@ || key == "teamconfig"@
}

/// One line of the configuration sheet, given as its tokens, applied to what
/// the lines before it set. The first token is the key; other keys and empty
/// lines are passed over.
pub open spec fn config_line(acc: ConfigLines, tokens: Seq<Seq<char>>) -> ConfigLines {
    if tokens.len() == 0 {
        acc
    } else {
        let key = lowercase(tokens[0]);
        let rest = tokens.subrange(1, tokens.len() as int);
        if is_relevance_key(key) {
            ConfigLines { relevances: acc.relevances.push(relevance_of(rest)), ..acc }
        } else if is_team_key(key) {
            ConfigLines { default_teams: with_team(acc.default_teams, team_of(rest)), ..acc }
        } else {
            acc
        }
    }
}

/// What the records of the configuration sheet set, in order.
pub open spec fn config_lines(records: Seq<Seq<Seq<char>>>) -> ConfigLines
    decreases records.len(),
{
    if records.len() == 0 {
        no_config_lines()
    } else {
        config_line(config_lines(records.drop_last()), record_tokens(records.last()))
    }
}

/// The cutoffs that setting the windows `rels` one after the other can leave.
pub open spec fn cutoff_possible(rels: Seq<Relevance>, c: Option<Timestamp>) -> bool
    decreases rels.len(),
{
    if rels.len() == 0 {
        c is None
    } else {
        exists|prev: Option<Timestamp>|
            cutoff_possible(rels.drop_last(), prev) && #[trigger] cutoff_update(
                rels.last(),
                prev,
                c,
            )
    }
}

/// `cfg` holds what the lines set, the cutoff aside: the last relevance
/// window, the default teams, and nothing else.
pub open spec fn config_fields(cfg: Config, lines: ConfigLines) -> bool {
    &&& cfg.relevance == if lines.relevances.len() > 0 {
        Some(lines.relevances.last())
    } else {
        None
    }
    &&& default_teams_view(cfg.default_teams) == lines.default_teams
    &&& cfg.sheet_overrides is None
    &&& cfg.ui is None
    &&& cfg.refresh_interval_seconds is None
    &&& cfg.cutoff_iso is None
    &&& cfg.other is None
}

/// `cfg` holds what the lines set: the last relevance window, a cutoff that
/// the windows can leave, the default teams, and nothing else.
pub open spec fn config_holds(cfg: Config, lines: ConfigLines) -> bool {
    &&& config_fields(cfg, lines)
    &&& cutoff_possible(lines.relevances, cfg.cutoff_timestamp)
}

/// `cfg` holds what the lines set, the cutoff reckoned with the clock
/// reading `now`.
pub open spec fn config_holds_at(cfg: Config, lines: ConfigLines, now: Option<Timestamp>) -> bool {
    &&& config_fields(cfg, lines)
    &&& cfg.cutoff_timestamp == cutoff_after_all(lines.relevances, now)
}

/// The tokens of one record: each field trimmed, the empty ones at the end
/// taken off.
fn tokens_of_record(record: &Vec<String>) -> (r: Vec<String>)
    ensures
        texts_view(r@) == record_tokens(texts_view(record@)),
{
    let ghost fields = texts_view(record@).map_values(|f: Seq<char>| trimmed(f));
    let mut tokens: Vec<String> = Vec::new();
    let mut j: usize = 0;
    while j < record.len()
        invariant
            fields == texts_view(record@).map_values(|f: Seq<char>| trimmed(f)),
            j <= record.len(),
            texts_view(tokens@) == fields.subrange(0, j as int),
        decreases record.len() - j,
    {
        let t = trim(record[j].as_str()).to_owned();
        let ghost before = tokens@;
        tokens.push(t);
        assert(texts_view(tokens@) =~= texts_view(before).push(t@));
        assert(fields.subrange(0, j + 1) =~= fields.subrange(0, j as int).push(fields[j as int]));
        j += 1;
    }
    assert(fields.subrange(0, j as int) =~= fields);
    while tokens.len() > 0 && tokens[tokens.len() - 1].as_str().is_empty()
        invariant
            drop_trailing_empty(texts_view(tokens@)) == drop_trailing_empty(fields),
        decreases tokens.len(),
    {
        let ghost before = tokens@;
        tokens.pop();
        assert(texts_view(tokens@) =~= texts_view(before).drop_last());
    }
    tokens
}

/// The records of the configuration sheet `text`: none for a blank text,
/// else those that the CSV reader gives (no header row, records of any
/// length).
pub open spec fn config_records(text: Seq<char>) -> Result<Seq<Seq<Seq<char>>>, Seq<char>> {
    if trimmed(text).len() == 0 {
        Ok(Seq::empty())
    } else {
        csv_records(text, false, true)
    }
}

/// `cfg` is what reading the configuration sheet `text` can give: what the
/// lines of its records set (nothing at all for a blank text).
pub open spec fn config_read(text: Seq<char>, cfg: Config) -> bool {
    config_records(text) matches Ok(records) && config_holds(cfg, config_lines(records))
}

/// `cfg` is what reading the configuration sheet `text` gives with the clock
/// reading `now`.
pub open spec fn config_read_at(text: Seq<char>, now: Option<Timestamp>, cfg: Config) -> bool {
    config_records(text) matches Ok(records) && config_holds_at(cfg, config_lines(records), now)
}

/// `cfg` is what reading the configuration sheet `text` gives with some
/// reading of the clock at or after 1970.
pub open spec fn config_read_now(text: Seq<char>, cfg: Config) -> bool {
    exists|t: Timestamp| is_post_epoch_reading(t) && #[trigger] config_read_at(text, Some(t), cfg)
}

/// Law: where the last relevance line of a configuration sheet has no start,
/// the configuration's window is that line's and its cutoff is a reading of
/// the clock at or after 1970 less the window's days and hours, whatever
/// the lines before set (wherever the window spans no more than the time
/// from the earliest representable date-time to 1970).
pub proof fn law_config_cutoff_reckoned_from_clock(text: Seq<char>, cfg: Config)
    requires
        config_read_now(text, cfg),
        config_records(text) is Ok,
        config_lines(config_records(text)->Ok_0).relevances.len() > 0,
        config_lines(config_records(text)->Ok_0).relevances.last().from is None,
        days_secs(config_lines(config_records(text)->Ok_0).relevances.last()) + hours_secs(
            config_lines(config_records(text)->Ok_0).relevances.last(),
        ) <= 0 - MIN_TIMESTAMP_SECS,
    ensures
        cfg.relevance == Some(config_lines(config_records(text)->Ok_0).relevances.last()),
        exists|t: Timestamp|
            #[trigger] is_post_epoch_reading(t) && cfg.cutoff_timestamp == Some(
                Timestamp {
                    secs: (t.secs - days_secs(config_lines(config_records(text)->Ok_0).relevances.last())
                        - hours_secs(config_lines(config_records(text)->Ok_0).relevances.last())) as i64,
                    nanos: t.nanos,
                },
            ),
{
    let rels = config_lines(config_records(text)->Ok_0).relevances;
    let t = choose|t: Timestamp| is_post_epoch_reading(t) && #[trigger] config_read_at(text, Some(t), cfg);
    assert(cfg.cutoff_timestamp == cutoff_after(rels.last(), cutoff_after_all(rels.drop_last(), Some(t)), Some(t)));
    assert(is_post_epoch_reading(t) && cfg.cutoff_timestamp == Some(
        Timestamp { secs: (t.secs - days_secs(rels.last()) - hours_secs(rels.last())) as i64, nanos: t.nanos },
    ));
}

/// Reads the configuration sheet (no header row, records of any length),
/// reading the clock once for the windows that reach back from the present.
/// A text that is blank after trimming gives the empty configuration. Read
/// flexibly, every text is a sheet, so the result is always `Ok`.
pub fn config_from_csv(config_csv: &str) -> (r: Result<Config, String>)
    ensures
        r matches Ok(cfg) && config_read(config_csv@, cfg),
        r matches Ok(cfg) && config_read_now(config_csv@, cfg),
{
    let now = clock_now();
    let r = config_from_csv_at(config_csv, now);
    proof {
        lemma_cutoff_after_all_possible(config_lines(config_records(config_csv@)->Ok_0).relevances, now);
        let t = now->0;
        assert(is_post_epoch_reading(t) && config_read_at(config_csv@, Some(t), r->Ok_0));
    }
    r
}

/// Reads the configuration sheet as `config_from_csv` does, with the clock
/// reading `now` for the windows that reach back from the present.
pub fn config_from_csv_at(config_csv: &str, now: Option<Timestamp>) -> (r: Result<Config, String>)
    requires
        valid_reading(now),
    ensures
        r matches Ok(cfg) && config_read_at(config_csv@, now, cfg),
{
    if trim(config_csv).is_empty() {
        assert(config_lines(Seq::<Seq<Seq<char>>>::empty()) == no_config_lines());
        return Ok(Config::default());
    }
    let records = match read_csv_records(config_csv, false, true) {
        Ok(records) => records,
        Err(e) => return Err(e),
    };
    Ok(config_from_records_at(&records, now))
}

/// The configuration that the records of a configuration sheet set, with the
/// clock reading `now` for the windows that reach back from the present:
/// each record's fields are trimmed, and its first token, in lowercase, says
/// what the rest sets ("relevance_time" or "relevance": the window;
/// "team_config" or "teamconfig": a default team); other records are passed
/// over.
pub fn config_from_records_at(records: &Vec<Vec<String>>, now: Option<Timestamp>) -> (cfg: Config)
    requires
        valid_reading(now),
    ensures
        config_holds_at(cfg, config_lines(records.deep_view()), now),
{
    let mut cfg = Config::default();
    let ghost rv = records.deep_view();
    assert(default_teams_view(cfg.default_teams) == no_config_lines().default_teams);
    let mut k: usize = 0;
    while k < records.len()
        invariant
            rv == records.deep_view(),
            k <= records.len(),
            valid_reading(now),
            config_holds_at(cfg, config_lines(rv.subrange(0, k as int)), now),
        decreases records.len() - k,
    {
        let ghost acc = config_lines(rv.subrange(0, k as int));
        assert(rv.subrange(0, k + 1).drop_last() =~= rv.subrange(0, k as int));
        assert(texts_view(records@[k as int]@) =~= rv[k as int]);
        let mut tokens = tokens_of_record(&records[k]);
        let ghost toks = record_tokens(rv[k as int]);
        assert(config_lines(rv.subrange(0, k + 1)) == config_line(acc, toks));
        if tokens.len() > 0 {
            let key = to_lowercase(tokens[0].as_str());
            let ghost tv = texts_view(tokens@);
            let rest = tokens.split_off(1);
            assert(texts_view(rest@) =~= tv.subrange(1, tv.len() as int));
            if same_text(key.as_str(), "relevance_time") || same_text(key.as_str(), "relevance") {
                cfg.add_relevance_at(rest, now);
                proof {
                    let rels = acc.relevances.push(relevance_of(tv.subrange(1, tv.len() as int)));
                    assert(rels.drop_last() =~= acc.relevances);
                    assert(config_line(acc, toks).relevances == rels);
                }
            } else if same_text(key.as_str(), "team_config") || same_text(key.as_str(), "teamconfig") {
                cfg.add_team_config(rest);
            }
            assert(config_holds_at(cfg, config_line(acc, toks), now));
        }
        k += 1;
    }
    assert(rv.subrange(0, k as int) =~= rv);
    cfg
}

/// A record that sets something: its first token is, in lowercase, the key
/// of a relevance line or of a team line.
pub open spec fn record_is_setting(record: Seq<Seq<char>>) -> bool {
    let t = record_tokens(record);
    t.len() > 0 && (is_relevance_key(lowercase(t[0])) || is_team_key(lowercase(t[0])))
}

/// The records that set something, in order.
pub open spec fn setting_records(records: Seq<Seq<Seq<char>>>) -> Seq<Seq<Seq<char>>>
    decreases records.len(),
{
    if records.len() == 0 {
        Seq::empty()
    } else if record_is_setting(records.last()) {
        setting_records(records.drop_last()).push(records.last())
    } else {
        setting_records(records.drop_last())
    }
}

/// Two records set the same thing: their keys agree in lowercase and the
/// tokens after the keys are the same.
pub open spec fn same_setting(a: Seq<Seq<char>>, b: Seq<Seq<char>>) -> bool {
    let ta = record_tokens(a);
    let tb = record_tokens(b);
    &&& ta.len() > 0
    &&& tb.len() > 0
    &&& lowercase(ta[0]) == lowercase(tb[0])
    &&& ta.subrange(1, ta.len() as int) == tb.subrange(1, tb.len() as int)
}

/// The records that set something in `a` and in `b` set, one by one and in
/// order, the same things.
pub open spec fn same_settings(a: Seq<Seq<Seq<char>>>, b: Seq<Seq<Seq<char>>>) -> bool {
    let sa = setting_records(a);
    let sb = setting_records(b);
    &&& sa.len() == sb.len()
    &&& forall|i: int| 0 <= i < sa.len() ==> same_setting(#[trigger] sa[i], sb[i])
}

/// Records that set nothing leave the lines read as they are.
proof fn lemma_config_lines_of_settings(records: Seq<Seq<Seq<char>>>)
    ensures
        config_lines(records) == config_lines(setting_records(records)),
    decreases records.len(),
{
    if records.len() > 0 {
        lemma_config_lines_of_settings(records.drop_last());
        let prev = setting_records(records.drop_last());
        if record_is_setting(records.last()) {
            let p = prev.push(records.last());
            assert(p.drop_last() =~= prev);
        }
    }
}

/// Records that set the same things one by one give the same lines.
proof fn lemma_same_settings_same_lines(a: Seq<Seq<Seq<char>>>, b: Seq<Seq<Seq<char>>>)
    requires
        a.len() == b.len(),
        forall|i: int| 0 <= i < a.len() ==> same_setting(#[trigger] a[i], b[i]),
    ensures
        config_lines(a) == config_lines(b),
    decreases a.len(),
{
    if a.len() > 0 {
        let n: int = a.len() - 1;
        assert forall|i: int| 0 <= i < n implies same_setting(#[trigger] a.drop_last()[i], b.drop_last()[i]) by {
            assert(same_setting(a[i], b[i]));
        }
        lemma_same_settings_same_lines(a.drop_last(), b.drop_last());
        assert(same_setting(a[n], b[n]));
    }
}

/// Law: the configuration sheet is read without regard to the case of its
/// keys, and lines that are empty or whose key is none of the settings are
/// passed over: records whose setting lines agree one by one, key case
/// aside, set the same things.
pub proof fn law_config_lines_ignore_key_case_and_other_lines(
    a: Seq<Seq<Seq<char>>>,
    b: Seq<Seq<Seq<char>>>,
)
    requires
        same_settings(a, b),
    ensures
        config_lines(a) == config_lines(b),
{
    lemma_config_lines_of_settings(a);
    lemma_config_lines_of_settings(b);
    lemma_same_settings_same_lines(setting_records(a), setting_records(b));
}

/// Law: two configuration sheets whose records set the same things, key
/// case and other lines aside, read alike: every configuration that reading
/// one can give, reading the other can give too (which one comes out rests
/// on the reading of the clock).
pub proof fn law_config_read_ignores_key_case_and_other_lines(t1: Seq<char>, t2: Seq<char>, cfg: Config)
    requires
        config_records(t1) is Ok,
        config_records(t2) is Ok,
        same_settings(config_records(t1)->Ok_0, config_records(t2)->Ok_0),
    ensures
        config_read(t1, cfg) == config_read(t2, cfg),
{
    law_config_lines_ignore_key_case_and_other_lines(config_records(t1)->Ok_0, config_records(t2)->Ok_0);
}

/// Law: with the same reading of the clock, two configuration sheets whose
/// records set the same things, key case and other lines aside, give the
/// same configuration: the same window, cutoff and default teams.
pub proof fn law_config_read_at_ignores_key_case_and_other_lines(
    t1: Seq<char>,
    t2: Seq<char>,
    now: Option<Timestamp>,
    cfg: Config,
)
    requires
        config_records(t1) is Ok,
        config_records(t2) is Ok,
        same_settings(config_records(t1)->Ok_0, config_records(t2)->Ok_0),
    ensures
        config_read_at(t1, now, cfg) == config_read_at(t2, now, cfg),
{
    law_config_lines_ignore_key_case_and_other_lines(config_records(t1)->Ok_0, config_records(t2)->Ok_0);
}

/// Law: with one reading of the clock, reading a configuration sheet has one
/// outcome: two configurations that it can give have the same window,
/// cutoff and default teams, and nothing else set.
pub proof fn law_config_read_at_is_determined(text: Seq<char>, now: Option<Timestamp>, a: Config, b: Config)
    requires
        config_read_at(text, now, a),
        config_read_at(text, now, b),
    ensures
        a.relevance == b.relevance,
        a.cutoff_timestamp == b.cutoff_timestamp,
        default_teams_view(a.default_teams) == default_teams_view(b.default_teams),
        is_empty_config(Config { relevance: None, default_teams: None, cutoff_timestamp: None, ..a }),
{
}

/// Tokens that agree in lowercase, with the same values after them.
pub open spec fn same_but_case(a: Seq<Seq<char>>, b: Seq<Seq<char>>) -> bool {
    &&& a.len() == b.len()
    &&& forall|i: int| 0 <= i < a.len() && i % 2 == 0 ==> lowercase(#[trigger] a[i]) == lowercase(b[i])
    &&& forall|i: int| 0 <= i < a.len() && i % 2 == 1 ==> #[trigger] a[i] == b[i]
}

/// Law: the tokens of a relevance line are read without regard to case: two
/// lines whose tokens agree in lowercase and whose values agree give the same
/// window.
pub proof fn law_relevance_tokens_ignore_case(a: Seq<Seq<char>>, b: Seq<Seq<char>>)
    requires
        same_but_case(a, b),
    ensures
        relevance_of(a) == relevance_of(b),
{
    lemma_relevance_pairs_ignore_case(a, b, ((a.len() + 1) / 2) as nat);
}

proof fn lemma_relevance_pairs_ignore_case(a: Seq<Seq<char>>, b: Seq<Seq<char>>, k: nat)
    requires
        same_but_case(a, b),
        2 * k <= a.len() + 1,
    ensures
        relevance_pairs(a, k) == relevance_pairs(b, k),
    decreases k,
{
    if k > 0 {
        lemma_relevance_pairs_ignore_case(a, b, (k - 1) as nat);
        let i: int = 2 * (k - 1);
        assert(lowercase(a[i]) == lowercase(b[i]));
        if i + 1 < a.len() {
            assert(a[i + 1] == b[i + 1]);
        }
        assert(value_after(a, i) == value_after(b, i));
    }
}

/// Law: the names in a team line are read without regard to case: two lines
/// whose names agree in lowercase and whose values agree give the same team.
pub proof fn law_team_tokens_ignore_case(a: Seq<Seq<char>>, b: Seq<Seq<char>>)
    requires
        same_but_case(a, b),
    ensures
        team_of(a) == team_of(b),
{
    lemma_team_pairs_ignore_case(a, b, (a.len() / 2) as nat);
}

proof fn lemma_team_pairs_ignore_case(a: Seq<Seq<char>>, b: Seq<Seq<char>>, k: nat)
    requires
        same_but_case(a, b),
        2 * k <= a.len(),
    ensures
        team_pairs(a, k) == team_pairs(b, k),
    decreases k,
{
    if k > 0 {
        lemma_team_pairs_ignore_case(a, b, (k - 1) as nat);
        let i: int = 2 * (k - 1);
        assert(lowercase(a[i]) == lowercase(b[i]));
        assert(a[i + 1] == b[i + 1]);
    }
}

/// Law: a window reckoned back from a reading of the clock starts no later
/// than that reading, so a time stamp at the moment of reading counts.
pub proof fn law_cutoff_not_after_now(rel: Relevance, now: Timestamp)
    requires
        is_clock_reading(now),
    ensures
        relative_cutoff(rel, now) matches Some(c) ==> ts_le(c, now),
{
}

/// Law: where the last relevance line of a configuration sheet has no
/// start, the time stamps that count under the configuration read from it are
/// exactly those not before a reading of the clock at or after 1970 less the
/// window's days and hours (wherever the window spans no more than the time
/// from the earliest representable date-time to 1970), whatever the lines
/// before set.
pub proof fn law_stamps_count_from_clock_window(text: Seq<char>, cfg: Config)
    requires
        config_read_now(text, cfg),
        config_records(text) is Ok,
        config_lines(config_records(text)->Ok_0).relevances.len() > 0,
        config_lines(config_records(text)->Ok_0).relevances.last().from is None,
        days_secs(config_lines(config_records(text)->Ok_0).relevances.last()) + hours_secs(
            config_lines(config_records(text)->Ok_0).relevances.last(),
        ) <= 0 - MIN_TIMESTAMP_SECS,
    ensures
        exists|t: Timestamp|
            #[trigger] is_post_epoch_reading(t) && forall|stamp: Seq<char>|
                tijdstempel_of(stamp) matches Some(ts) ==> (#[trigger] relevant_time(cfg.cutoff_timestamp, stamp)
                    is Some <==> ts_le(
                    Timestamp {
                        secs: (t.secs - days_secs(config_lines(config_records(text)->Ok_0).relevances.last())
                            - hours_secs(config_lines(config_records(text)->Ok_0).relevances.last())) as i64,
                        nanos: t.nanos,
                    },
                    ts,
                )),
{
    law_config_cutoff_reckoned_from_clock(text, cfg);
    let rel = config_lines(config_records(text)->Ok_0).relevances.last();
    let t = choose|t: Timestamp|
        #[trigger] is_post_epoch_reading(t) && cfg.cutoff_timestamp == Some(
            Timestamp { secs: (t.secs - days_secs(rel) - hours_secs(rel)) as i64, nanos: t.nanos },
        );
    let c = Timestamp { secs: (t.secs - days_secs(rel) - hours_secs(rel)) as i64, nanos: t.nanos };
    assert forall|stamp: Seq<char>| tijdstempel_of(stamp) is Some implies (#[trigger] relevant_time(
        cfg.cutoff_timestamp,
        stamp,
    ) is Some <==> ts_le(c, tijdstempel_of(stamp)->0)) by {
        law_relevant_not_before_cutoff(cfg.cutoff_timestamp, stamp);
    }
    assert(is_post_epoch_reading(t));
}

/// Law: a time stamp counts exactly when it is one and is not before the
/// cutoff; with no cutoff, every time stamp counts.
pub proof fn law_relevant_not_before_cutoff(cutoff: Option<Timestamp>, text: Seq<char>)
    ensures
        relevant_time(cutoff, text) matches Some(t) ==> tijdstempel_of(text) == Some(t) && (
        cutoff matches Some(c) ==> ts_le(c, t)),
        tijdstempel_of(text) matches Some(t) ==> (relevant_time(cutoff, text) is Some <==> (
        cutoff matches Some(c) ==> ts_le(c, t))),
{
}

} // verus!
