//! The players ("tikkers"), each known by a name and a password, and the
//! count of their tags.
use vstd::prelude::*;
use crate::config::Config;
use crate::inport_info::{cell_or, read_sheet_dynamic, rows_view, sheet_rows, SheetRow};
use crate::location_date::{Locatie, Timestamp};
use crate::lookup::{first_index, lemma_first_index, lemma_first_index_is, lemma_first_index_none};
use crate::text::same_text;

verus! {

/// A player as the library's contracts see it; the count is unbounded.
pub struct TikkerView {
    pub name: Seq<char>,
    pub paswoord: Seq<char>,
    pub tiks: nat,
    pub last_tick: Option<Timestamp>,
    pub last_loc: Option<Locatie>,
}

/// A player: name, password, number of tags and when and where last seen.
#[derive(Debug)]
pub struct Tikker {
    pub name: String,
    pub paswoord: String,
    pub tiks: u32,
    pub last_tick: Option<Timestamp>,
    pub last_loc: Option<Locatie>,
}

impl View for Tikker {
    type V = TikkerView;

    open spec fn view(&self) -> TikkerView {
        TikkerView {
            name: self.name@,
            paswoord: self.paswoord@,
            tiks: self.tiks as nat,
            last_tick: self.last_tick,
            last_loc: self.last_loc,
        }
    }
}

/// A new player with no tags.
pub open spec fn new_tikker_view(name: Seq<char>, paswoord: Seq<char>) -> TikkerView {
    TikkerView { name, paswoord, tiks: 0, last_tick: None, last_loc: None }
}

/// A player with `n` more tags.
pub open spec fn with_tiks(t: TikkerView, n: nat) -> TikkerView {
    TikkerView { tiks: t.tiks + n, ..t }
}

/// A player with `n` more tags, the last at `date`.
pub open spec fn with_tiks_at(t: TikkerView, n: nat, date: Timestamp) -> TikkerView {
    TikkerView { tiks: t.tiks + n, last_tick: Some(date), ..t }
}

/// The player has this name.
pub open spec fn has_name(name: Seq<char>) -> spec_fn(TikkerView) -> bool {
    |t: TikkerView| t.name == name
}

/// The player has this password.
pub open spec fn has_password(paswoord: Seq<char>) -> spec_fn(TikkerView) -> bool {
    |t: TikkerView| t.paswoord == paswoord
}

/// The first player with this name.
pub open spec fn name_index(s: Seq<TikkerView>, name: Seq<char>) -> Option<int> {
    first_index(s, has_name(name))
}

/// The first player with this password.
pub open spec fn password_index(s: Seq<TikkerView>, paswoord: Seq<char>) -> Option<int> {
    first_index(s, has_password(paswoord))
}

/// The views of a list of players.
pub open spec fn tikkers_view(list: Seq<Tikker>) -> Seq<TikkerView> {
    list.map_values(|t: Tikker| t@)
}

/// Replacing one player in the list replaces its view.
pub proof fn lemma_tikkers_view_update(list: Seq<Tikker>, i: int, t: Tikker)
    requires
        0 <= i < list.len(),
    ensures
        tikkers_view(list.update(i, t)) == tikkers_view(list).update(i, t@),
{
    assert(tikkers_view(list.update(i, t)) =~= tikkers_view(list).update(i, t@));
}

impl Tikker {
    /// A player with this name and password and no tags.
    pub fn new(name: String, paswoord: String) -> (r: Self)
        ensures
            r@ == new_tikker_view(name@, paswoord@),
    {
        Tikker { name, paswoord, tiks: 0, last_tick: None, last_loc: None }
    }

    /// Counts one more tag.
    pub fn add_tik(&mut self)
        requires
            old(self).tiks < u32::MAX,
        ensures
            final(self)@ == with_tiks(old(self)@, 1),
    {
        self.tiks += 1;
    }

    /// Counts one more tag, made at `tik_date`.
    pub fn add_tik_date(&mut self, tik_date: Timestamp)
        requires
            old(self).tiks < u32::MAX,
        ensures
            final(self)@ == with_tiks_at(old(self)@, 1, tik_date),
    {
        self.add_tik();
        self.last_tick = Some(tik_date);
    }

    /// Records where the player was last seen.
    pub fn update_location(&mut self, locatie: Locatie)
        ensures
            final(self)@ == (TikkerView { last_loc: Some(locatie), ..old(self)@ }),
    {
        self.last_loc = Some(locatie);
    }
}

/// All players, in the order they were added.
#[derive(Debug)]
pub struct Tikkers {
    pub tikker_list: Vec<Tikker>,
}

impl View for Tikkers {
    type V = Seq<TikkerView>;

    open spec fn view(&self) -> Seq<TikkerView> {
        tikkers_view(self.tikker_list@)
    }
}

impl Tikker {
    /// A player with the same data.
    pub(crate) fn copy(&self) -> (r: Tikker)
        ensures
            r@ == self@,
    {
        Tikker {
            name: self.name.clone(),
            paswoord: self.paswoord.clone(),
            tiks: self.tiks,
            last_tick: self.last_tick,
            last_loc: self.last_loc,
        }
    }
}

impl Tikkers {
    /// The same players, in the same order.
    pub(crate) fn copy(&self) -> (r: Tikkers)
        ensures
            r@ == self@,
    {
        let mut list: Vec<Tikker> = Vec::new();
        let mut i: usize = 0;
        while i < self.tikker_list.len()
            invariant
                i <= self.tikker_list@.len(),
                tikkers_view(list@) == self@.subrange(0, i as int),
            decreases self.tikker_list@.len() - i,
        {
            let t = self.tikker_list[i].copy();
            let ghost before = list@;
            list.push(t);
            assert(tikkers_view(list@) =~= tikkers_view(before).push(t@));
            assert(self@.subrange(0, i + 1) =~= self@.subrange(0, i as int).push(self@[i as int]));
            i += 1;
        }
        assert(self@.subrange(0, i as int) =~= self@);
        Tikkers { tikker_list: list }
    }

    /// No players.
    pub fn default() -> (r: Self)
        ensures
            r@ == Seq::<TikkerView>::empty(),
    {
        let r = Tikkers { tikker_list: Vec::new() };
        assert(r@ =~= Seq::<TikkerView>::empty());
        r
    }

    /// Adds a player at the end.
    pub fn add_tikker(&mut self, tikker: Tikker)
        ensures
            final(self)@ == old(self)@.push(tikker@),
    {
        self.tikker_list.push(tikker);
        assert(self@ =~= old(self)@.push(tikker@));
    }

    /// Adds a new player with this name and password, and no tags.
    pub fn add_ticker_by_name_paswoord(&mut self, name: &str, paswoord: &str)
        ensures
            final(self)@ == old(self)@.push(new_tikker_view(name@, paswoord@)),
    {
        let tikker = Tikker::new(name.to_owned(), paswoord.to_owned());
        self.add_tikker(tikker);
    }

    /// The position of the first player with this name.
    fn position_by_name(&self, name: &str) -> (r: Option<usize>)
        ensures
            match r {
                Some(i) => name_index(self@, name@) == Some(i as int) && i < self.tikker_list@.len(),
                None => name_index(self@, name@) is None,
            },
    {
        let n: usize = self.tikker_list.len();
        let mut i: usize = 0;
        while i < n
            invariant
                n == self.tikker_list@.len(),
                i <= n,
                forall|j: int| 0 <= j < i ==> !(#[trigger] has_name(name@)(self@[j])),
            decreases n - i,
        {
            if same_text(self.tikker_list[i].name.as_str(), name) {
                proof {
                    lemma_first_index_is(self@, has_name(name@), i as int);
                }
                return Some(i);
            }
            i += 1;
        }
        proof {
            lemma_first_index_none(self@, has_name(name@));
        }
        None
    }

    /// The position of the first player with this password.
    pub(crate) fn position_by_password(&self, paswoord: &str) -> (r: Option<usize>)
        ensures
            match r {
                Some(i) => password_index(self@, paswoord@) == Some(i as int) && i
                    < self.tikker_list@.len(),
                None => password_index(self@, paswoord@) is None,
            },
    {
        let n: usize = self.tikker_list.len();
        let mut i: usize = 0;
        while i < n
            invariant
                n == self.tikker_list@.len(),
                i <= n,
                forall|j: int| 0 <= j < i ==> !(#[trigger] has_password(paswoord@)(self@[j])),
            decreases n - i,
        {
            if same_text(self.tikker_list[i].paswoord.as_str(), paswoord) {
                proof {
                    lemma_first_index_is(self@, has_password(paswoord@), i as int);
                }
                return Some(i);
            }
            i += 1;
        }
        proof {
            lemma_first_index_none(self@, has_password(paswoord@));
        }
        None
    }

    /// The first player with this name, to change in place.
    pub fn get_tikker_by_name(&mut self, name: &str) -> (r: Option<&mut Tikker>)
        ensures
            match name_index(old(self)@, name@) {
                Some(i) => r matches Some(t) && *t == old(self).tikker_list@[i]
                    && final(self).tikker_list@ == old(self).tikker_list@.update(i, *final(t)),
                None => r is None && final(self).tikker_list@ == old(self).tikker_list@,
            },
    {
        match self.position_by_name(name) {
            Some(i) => Some(&mut self.tikker_list[i]),
            None => None,
        }
    }

    /// The first player with this password, to change in place.
    pub fn get_tikker_by_pasword(&mut self, paswoord: &str) -> (r: Option<&mut Tikker>)
        ensures
            match password_index(old(self)@, paswoord@) {
                Some(i) => r matches Some(t) && *t == old(self).tikker_list@[i]
                    && final(self).tikker_list@ == old(self).tikker_list@.update(i, *final(t)),
                None => r is None && final(self).tikker_list@ == old(self).tikker_list@,
            },
    {
        match self.position_by_password(paswoord) {
            Some(i) => Some(&mut self.tikker_list[i]),
            None => None,
        }
    }

    /// Counts `num_tiks` more tags for the first player with this name and
    /// gives back that player's name; `None` where no player has it.
    pub fn add_num_tiks_by_name(&mut self, name: &str, num_tiks: u32) -> (r: Option<&str>)
        requires
            name_index(old(self)@, name@) matches Some(i) ==> old(self)@[i].tiks + num_tiks
                <= u32::MAX,
        ensures
            match name_index(old(self)@, name@) {
                Some(i) => r matches Some(s) && s@ == name@ && final(self)@ == old(self)@.update(
                    i,
                    with_tiks(old(self)@[i], num_tiks as nat),
                ),
                None => r is None && final(self)@ == old(self)@,
            },
    {
        match self.position_by_name(name) {
            Some(i) => {
                proof {
                    lemma_first_index(old(self)@, has_name(name@));
                }
                let ghost old_list = self.tikker_list@;
                let tikker = &mut self.tikker_list[i];
                tikker.tiks += num_tiks;
                proof {
                    lemma_tikkers_view_update(old_list, i as int, *tikker);
                }
                Some(tikker.name.as_str())
            },
            None => None,
        }
    }

    /// Counts `num_tiks` more tags for the first player with this password and
    /// gives back that player, to change further; `None` where no player has it.
    pub fn add_num_tiks_by_paswoord(&mut self, paswoord: &str, num_tiks: u32) -> (r: Option<&mut Tikker>)
        requires
            password_index(old(self)@, paswoord@) matches Some(i) ==> old(self)@[i].tiks + num_tiks
                <= u32::MAX,
        ensures
            match password_index(old(self)@, paswoord@) {
                Some(i) => r matches Some(t) && (*t)@ == with_tiks(old(self)@[i], num_tiks as nat)
                    && final(self).tikker_list@ == old(self).tikker_list@.update(i, *final(t)),
                None => r is None && final(self).tikker_list@ == old(self).tikker_list@,
            },
    {
        match self.position_by_password(paswoord) {
            Some(i) => {
                let tikker = &mut self.tikker_list[i];
                tikker.tiks += num_tiks;
                Some(tikker)
            },
            None => None,
        }
    }

    /// Counts `num_tiks` more tags, the last at `tik_date`, for the first player
    /// with this password and gives back that player's name; `None` where no
    /// player has it.
    pub fn add_tik_with_date_by_paswoord(&mut self, paswoord: &str, tik_date: Timestamp, num_tiks: u32) -> (r: Option<&str>)
        requires
            password_index(old(self)@, paswoord@) matches Some(i) ==> old(self)@[i].tiks + num_tiks
                <= u32::MAX,
        ensures
            match password_index(old(self)@, paswoord@) {
                Some(i) => r matches Some(s) && s@ == old(self)@[i].name && final(self)@
                    == old(self)@.update(i, with_tiks_at(old(self)@[i], num_tiks as nat, tik_date)),
                None => r is None && final(self)@ == old(self)@,
            },
    {
        let ghost old_list = self.tikker_list@;
        match self.add_num_tiks_by_paswoord(paswoord, num_tiks) {
            Some(tikker) => {
                tikker.last_tick = Some(tik_date);
                proof {
                    lemma_first_index(old(self)@, has_password(paswoord@));
                    lemma_tikkers_view_update(old_list, password_index(old(self)@, paswoord@)->0, *tikker);
                }
                Some(tikker.name.as_str())
            },
            None => None,
        }
    }

    /// Takes out the first player with this name; `None` where no player has it.
    pub fn remove_tikker_by_name(&mut self, name: &str) -> (r: Option<Tikker>)
        ensures
            match name_index(old(self)@, name@) {
                Some(i) => r matches Some(t) && t@ == old(self)@[i] && final(self)@ == old(
                    self,
                )@.remove(i),
                None => r is None && final(self)@ == old(self)@,
            },
    {
        match self.position_by_name(name) {
            Some(pos) => {
                let t = self.tikker_list.remove(pos);
                assert(self@ =~= old(self)@.remove(pos as int));
                Some(t)
            },
            None => None,
        }
    }

    /// Takes out the first player with this password; `None` where no player has it.
    pub fn remove_tikker_by_paswoord(&mut self, paswoord: &str) -> (r: Option<Tikker>)
        ensures
            match password_index(old(self)@, paswoord@) {
                Some(i) => r matches Some(t) && t@ == old(self)@[i] && final(self)@ == old(
                    self,
                )@.remove(i),
                None => r is None && final(self)@ == old(self)@,
            },
    {
        match self.position_by_password(paswoord) {
            Some(pos) => {
                let t = self.tikker_list.remove(pos);
                assert(self@ =~= old(self)@.remove(pos as int));
                Some(t)
            },
            None => None,
        }
    }
}


/// The players that the rows of the player sheet list, in order: each with
/// its "Naam" and "Wachtwoord" (empty where missing) and no tags.
pub open spec fn tikkers_from_rows(rows: Seq<Seq<(Seq<char>, Seq<char>)>>) -> Seq<TikkerView> {
    rows.map_values(
        |row: Seq<(Seq<char>, Seq<char>)>|
            new_tikker_view(cell_or(row, "Naam"@, ""@), cell_or(row, "Wachtwoord"@, ""@)),
    )
}

/// The players that the player sheet lists; none where it does not read.
pub open spec fn tikkers_from_sheet(sheet_csv: Seq<char>) -> Seq<TikkerView> {
    match sheet_rows(sheet_csv) {
        Ok(rows) => tikkers_from_rows(rows),
        Err(_) => Seq::empty(),
    }
}

/// The players `p` are those of the rows `rows`: one per row and in order,
/// each with exactly the row's "Naam" as its name and its "Wachtwoord" as its
/// password (empty where missing), and with no tags yet.
pub open spec fn players_match_rows(p: Seq<TikkerView>, rows: Seq<Seq<(Seq<char>, Seq<char>)>>) -> bool {
    &&& p.len() == rows.len()
    &&& forall|i: int|
        0 <= i < rows.len() ==> {
            &&& (#[trigger] p[i]).name == cell_or(rows[i], "Naam"@, ""@)
            &&& p[i].paswoord == cell_or(rows[i], "Wachtwoord"@, ""@)
            &&& p[i].tiks == 0
            &&& p[i].last_tick is None
            &&& p[i].last_loc is None
        }
}

/// Law: the players read from a player sheet keep their rows' cells as
/// written: one player per row, in order, whose name is the row's "Naam" and
/// whose password is the row's "Wachtwoord", neither changed in any way
/// (empty where the column is missing); none where the sheet does not read.
pub proof fn law_players_keep_row_cells(sheet_csv: Seq<char>)
    ensures
        match sheet_rows(sheet_csv) {
            Ok(rows) => players_match_rows(tikkers_from_sheet(sheet_csv), rows),
            Err(_) => tikkers_from_sheet(sheet_csv).len() == 0,
        },
{
}

/// Reads the players from the player sheet: one per row, with its name and
/// password and no tags. A sheet that does not read gives no players; the
/// result is always `Ok`. The configuration is not consulted.
pub fn get_tikkers_from_google_sheet(sheet_csv: &str, _cfg: &Config) -> (r: Result<Tikkers, String>)
    ensures
        r matches Ok(t) && t@ == tikkers_from_sheet(sheet_csv@),
        r matches Ok(t) && match sheet_rows(sheet_csv@) {
            Ok(rows) => players_match_rows(t@, rows),
            Err(_) => t@.len() == 0,
        },
{
    match read_sheet_dynamic(sheet_csv) {
        Ok(structure) => Ok(tikkers_from_sheet_rows(&structure)),
        Err(_) => Ok(Tikkers::default()),
    }
}

/// The players that the rows of the player sheet list: one per row, with its
/// "Naam" and "Wachtwoord" (empty where missing) and no tags.
pub fn tikkers_from_sheet_rows(rows: &Vec<SheetRow>) -> (t: Tikkers)
    ensures
        t@ == tikkers_from_rows(rows_view(rows@)),
        players_match_rows(t@, rows_view(rows@)),
{
    let mut tikkers = Tikkers::default();
    let ghost rv = rows_view(rows@);
    let mut k: usize = 0;
    while k < rows.len()
        invariant
            rv == rows_view(rows@),
            k <= rows.len(),
            tikkers@ == tikkers_from_rows(rv.subrange(0, k as int)),
        decreases rows.len() - k,
    {
        let row = &rows[k];
        let team_naam = row.value_or("Naam", "");
        let wachtwoord = row.value_or("Wachtwoord", "");
        tikkers.add_ticker_by_name_paswoord(team_naam.as_str(), wachtwoord.as_str());
        assert(tikkers_from_rows(rv.subrange(0, k + 1)) =~= tikkers_from_rows(
            rv.subrange(0, k as int),
        ).push(new_tikker_view(team_naam@, wachtwoord@)));
        k += 1;
    }
    assert(rv.subrange(0, k as int) =~= rv);
    tikkers
}

} // verus!
