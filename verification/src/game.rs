//! Games, and what was done to scale them down.
use vstd::prelude::*;

use crate::error::EngineError;
use crate::ordered::{Key, OrdMap, OrdSet, Record};
use crate::path::EnginePath;
use crate::{error, ordered, package_name, path, text, text_laws};

verus! {

// ---------------------------------------------------------------------------
// Game lists
// ---------------------------------------------------------------------------

/// A set of game packages.
#[derive(Debug, PartialEq, Eq)]
pub struct GameList {
    packages: OrdSet<String>,
}

impl View for GameList {
    type V = Set<Seq<char>>;

    closed spec fn view(&self) -> Set<Seq<char>> {
        self.packages@
    }
}

impl Default for GameList {
    fn default() -> (r: Self)
        ensures
            r@ == Set::<Seq<char>>::empty(),
    {
        GameList { packages: OrdSet::new() }
    }
}

impl Clone for GameList {
    fn clone(&self) -> (r: Self)
        ensures
            r@ == self@,
    {
        GameList { packages: self.packages.clone() }
    }
}

impl GameList {
    /// The list of the given packages.
    pub fn from_packages(packages: OrdSet<String>) -> (r: Self)
        ensures
            r@ == packages@,
    {
        GameList { packages }
    }

    /// Whether a package is a game.
    pub fn contains(&self, package: &str) -> (r: bool)
        ensures
            r == self@.contains(package@),
    {
        self.packages.contains(&package.to_owned())
    }

    /// The number of games.
    pub fn len(&self) -> (r: usize)
        ensures
            r == self@.len(),
    {
        self.packages.len()
    }

    /// Whether there is no game.
    pub fn is_empty(&self) -> (r: bool)
        ensures
            r == (self@ == Set::<Seq<char>>::empty()),
    {
        self.packages.is_empty()
    }

    /// The packages, in order.
    pub fn packages(&self) -> (r: Vec<String>)
        ensures
            ordered::enumerates(ordered::strings(r@), self@, String::order()),
    {
        ordered::listed(&self.packages)
    }

    /// The packages as a set.
    pub fn package_set(&self) -> (r: &OrdSet<String>)
        ensures
            r@ == self@,
    {
        &self.packages
    }
}

/// Whether a line of a game list names a game: it is no comment and a package
/// name.
pub open spec fn names_game(line: Seq<char>) -> bool {
    line.len() > 0 && line[0] != '#' && package_name::package_ok(line, true)
}

/// The games that lines name, white space around them aside.
pub open spec fn games_in(lines: Seq<Seq<char>>) -> Set<Seq<char>> {
    Set::new(
        |p: Seq<char>|
            names_game(p) && exists|i: int|
                0 <= i < lines.len() && text::trim(#[trigger] lines[i]) == p,
    )
}

/// Reads a game list: one package on a line; blank lines, comments and what is
/// no package name are passed over.
pub fn parse_game_list(content: &str) -> (r: GameList)
    ensures
        r@ == games_in(text::lines(content@)),
{
    let lines = text::lines_of(&text::chars_of(content));
    let ghost all = text::lines(content@);
    let mut packages: OrdSet<String> = OrdSet::new();
    let mut i: usize = 0;
    assert(packages@ =~= games_in(all.take(0)));
    while i < lines.len()
        invariant
            i <= lines.len(),
            all == text::texts(lines@),
            packages@ == games_in(all.take(i as int)),
        decreases lines.len() - i,
    {
        let line = text::trim_of(&lines[i]);
        let ghost name = line@;
        if line.len() > 0 && line[0] != '#' && package_name::is_package_name(&line, true) {
            let _ = packages.insert(text::string_of(&line));
        }
        proof {
            assert(all[i as int] == lines@[i as int]@);
            assert forall|p: Seq<char>| packages@.contains(p) <==> games_in(
                all.take(i + 1),
            ).contains(p) by {
                if games_in(all.take(i as int)).contains(p) {
                    let k = choose|k: int|
                        0 <= k < all.take(i as int).len() && text::trim(
                            #[trigger] all.take(i as int)[k],
                        ) == p;
                    assert(all.take(i + 1)[k] == all.take(i as int)[k]);
                }
                if games_in(all.take(i + 1)).contains(p) {
                    let k = choose|k: int|
                        0 <= k < all.take(i + 1).len() && text::trim(
                            #[trigger] all.take(i + 1)[k],
                        ) == p;
                    if k < i {
                        assert(all.take(i as int)[k] == all.take(i + 1)[k]);
                    }
                }
                assert(text::trim(all.take(i + 1)[i as int]) == name);
            }
            assert(packages@ =~= games_in(all.take(i + 1)));
        }
        i += 1;
    }
    assert(all.take(i as int) == all);
    GameList { packages }
}

/// The game list that a file holds, given what reading the file gave.
pub fn load_game_list(read: Result<String, EngineError>) -> (r: Result<GameList, EngineError>)
    ensures
        match read {
            Ok(content) => r matches Ok(list) && list@ == games_in(text::lines(content@)),
            Err(e) => r == Err::<GameList, EngineError>(e),
        },
{
    match read {
        Ok(content) => Ok(parse_game_list(content.as_str())),
        Err(e) => Err(e),
    }
}

/// The games that are installed.
pub open spec fn installed_games(games: Set<Seq<char>>, installed: Set<Seq<char>>) -> Set<Seq<char>> {
    games.intersect(installed)
}

/// The games that are installed.
pub fn game_targets_from_installed(
    game_list: &GameList,
    installed_packages: &OrdSet<String>,
) -> (r: GameList)
    ensures
        r@ == game_list@.intersect(installed_packages@),
        r@ == installed_games(game_list@, installed_packages@),
{
    let names = ordered::listed(&game_list.packages);
    let ghost all = ordered::strings(names@);
    let mut packages: OrdSet<String> = OrdSet::new();
    let mut i: usize = 0;
    while i < names.len()
        invariant
            i <= names.len(),
            all == ordered::strings(names@),
            forall|p: Seq<char>| #[trigger]
                packages@.contains(p) <==> all.take(i as int).contains(p)
                    && installed_packages@.contains(p),
        decreases names.len() - i,
    {
        let ghost was = packages@;
        let ghost name = names@[i as int]@;
        if installed_packages.contains(&names[i]) {
            let _ = packages.insert(names[i].clone());
        }
        proof {
            assert(all.take(i + 1) == all.take(i as int).push(name));
            assert forall|p: Seq<char>| #[trigger]
                packages@.contains(p) <==> all.take(i + 1).contains(p)
                    && installed_packages@.contains(p) by {
                assert(was.contains(p) <==> all.take(i as int).contains(p)
                    && installed_packages@.contains(p));
                assert(all.take(i + 1)[i as int] == name);
                if all.take(i as int).contains(p) {
                    let k = all.take(i as int).index_of(p);
                    assert(all.take(i + 1)[k] == p);
                }
                if all.take(i + 1).contains(p) {
                    let k = all.take(i + 1).index_of(p);
                    if k < i {
                        assert(all.take(i as int)[k] == p);
                    }
                }
            }
        }
        i += 1;
    }
    proof {
        assert(all.take(i as int) == all);
        assert(packages@ =~= game_list@.intersect(installed_packages@)) by {
            assert forall|p: Seq<char>| packages@.contains(p) <==> game_list@.intersect(
                installed_packages@,
            ).contains(p) by {
                assert(game_list@.contains(p) <==> all.contains(p));
            }
        }
    }
    GameList { packages }
}

// ---------------------------------------------------------------------------
// Scaled down games
// ---------------------------------------------------------------------------

/// What was done to scale a game down.
#[derive(Debug, PartialEq, Eq)]
pub struct ManagedGameDownscale {
    pub package: String,
    pub overlay_hash: String,
    pub applied_ms: u64,
}

/// The model of what was done to scale a game down.
pub struct DownscaleModel {
    pub package: Seq<char>,
    pub overlay_hash: Seq<char>,
    pub applied_ms: u64,
}

impl Record for ManagedGameDownscale {
    type Model = DownscaleModel;

    open spec fn model(&self) -> DownscaleModel {
        DownscaleModel {
            package: self.package@,
            overlay_hash: self.overlay_hash@,
            applied_ms: self.applied_ms,
        }
    }

    fn duplicate(&self) -> (r: Self) {
        ManagedGameDownscale {
            package: self.package.clone(),
            overlay_hash: self.overlay_hash.clone(),
            applied_ms: self.applied_ms,
        }
    }
}

impl Clone for ManagedGameDownscale {
    fn clone(&self) -> (r: Self)
        ensures
            r.model() == self.model(),
    {
        self.duplicate()
    }
}

/// What was done to scale games down, by package.
#[derive(Debug, PartialEq, Eq)]
pub struct ManagedGameDownscales {
    entries: OrdMap<String, ManagedGameDownscale>,
}

impl View for ManagedGameDownscales {
    type V = Map<Seq<char>, DownscaleModel>;

    closed spec fn view(&self) -> Map<Seq<char>, DownscaleModel> {
        self.entries@
    }
}

impl Default for ManagedGameDownscales {
    fn default() -> (r: Self)
        ensures
            r@ == Map::<Seq<char>, DownscaleModel>::empty(),
    {
        ManagedGameDownscales { entries: OrdMap::new() }
    }
}

impl Clone for ManagedGameDownscales {
    fn clone(&self) -> (r: Self)
        ensures
            r@ == self@,
    {
        ManagedGameDownscales { entries: self.entries.clone() }
    }
}

impl ManagedGameDownscales {
    /// Whether there is an entry for a package.
    pub fn contains(&self, package: &str) -> (r: bool)
        ensures
            r == self@.contains_key(package@),
    {
        self.entries.contains_key(&package.to_owned())
    }

    /// Adds an entry, in place of one for the same package.
    pub fn insert(&mut self, entry: ManagedGameDownscale)
        ensures
            final(self)@ == old(self)@.insert(entry.model().package, entry.model()),
    {
        self.entries.insert(entry.package.clone(), entry);
    }

    /// Takes the entry for a package out.
    pub fn remove(&mut self, package: &str) -> (r: Option<ManagedGameDownscale>)
        ensures
            final(self)@ == old(self)@.remove(package@),
            match r {
                Some(entry) => old(self)@.contains_key(package@) && old(self)@[package@]
                    == entry.model(),
                None => !old(self)@.contains_key(package@),
            },
    {
        self.entries.remove(&package.to_owned())
    }

    /// The packages, in order.
    pub fn packages(&self) -> (r: Vec<String>)
        ensures
            ordered::lists(ordered::strings(r@), self@, String::order()),
    {
        let n: usize = self.entries.len();
        let ghost names = self.entries.names();
        let mut r: Vec<String> = Vec::new();
        let mut i: usize = 0;
        while i < n
            invariant
                i <= n,
                n == self.entries.names().len(),
                names == self.entries.names(),
                ordered::strings(r@) == names.take(i as int),
            decreases n - i,
        {
            let ghost was = r@;
            r.push(self.entries.key_at(i).clone());
            assert(ordered::strings(r@) =~= ordered::strings(was).push(names[i as int]));
            i += 1;
            assert(names.take(i as int) == names.take(i - 1).push(names[i - 1]));
        }
        assert(names.take(n as int) == names);
        r
    }

    /// The number of entries.
    pub fn len(&self) -> (r: usize)
        ensures
            r == self@.len(),
    {
        self.entries.len()
    }

    /// Whether there is no entry.
    pub fn is_empty(&self) -> (r: bool)
        ensures
            r == (self@ == Map::<Seq<char>, DownscaleModel>::empty()),
    {
        self.entries.is_empty()
    }

    /// The entry for a package.
    pub fn get(&self, package: &str) -> (r: Option<&ManagedGameDownscale>)
        ensures
            match r {
                Some(entry) => self@.contains_key(package@) && self@[package@] == entry.model(),
                None => !self@.contains_key(package@),
            },
    {
        self.entries.get(&package.to_owned())
    }
}

/// Whether a text is a number of hexadecimal digits, at least one.
pub open spec fn hex_text(s: Seq<char>) -> bool {
    s.len() > 0 && forall|i: int| 0 <= i < s.len() ==> text::hex_digit(#[trigger] s[i])
}

fn is_hex_text(s: &Vec<char>) -> (r: bool)
    ensures
        r == hex_text(s@),
{
    if s.len() == 0 {
        return false;
    }
    let mut i: usize = 0;
    while i < s.len()
        invariant
            i <= s.len(),
            forall|k: int| 0 <= k < i ==> text::hex_digit(#[trigger] s@[k]),
        decreases s.len() - i,
    {
        if !text::is_hex_digit(s[i]) {
            return false;
        }
        i += 1;
    }
    true
}

/// The names of the modes that rows of an older form have.
pub open spec fn mode_name(s: Seq<char>) -> bool {
    s == "standard"@ || s == "performance"@ || s == "battery"@
}

/// The entry that three fields make, if they are a package name, a hash and a
/// time.
pub open spec fn entry_of(
    package: Seq<char>,
    overlay_hash: Seq<char>,
    applied_ms: Seq<char>,
) -> Option<DownscaleModel> {
    if package_name::package_ok(package, true) && hex_text(overlay_hash) {
        match text::parse_unsigned(applied_ms, u64::MAX as nat) {
            Some(ms) => Some(DownscaleModel { package, overlay_hash, applied_ms: ms as u64 }),
            None => None,
        }
    } else {
        None
    }
}

/// The entry that a row states: package, hash and time, with a mode after the
/// package in rows of the older form.
pub open spec fn entry_of_row(row: Seq<char>) -> Option<DownscaleModel> {
    let columns = text::split(row, '\t');
    if columns.len() == 3 {
        entry_of(columns[0], columns[1], columns[2])
    } else if columns.len() == 4 && mode_name(columns[1]) {
        entry_of(columns[0], columns[2], columns[3])
    } else {
        None
    }
}

/// The entries that rows state: of several for one package, the last.
pub open spec fn entries_of(rows: Seq<Seq<char>>) -> Map<Seq<char>, DownscaleModel>
    decreases rows.len(),
{
    if rows.len() == 0 {
        Map::empty()
    } else {
        match entry_of_row(rows.last()) {
            Some(entry) => entries_of(rows.drop_last()).insert(entry.package, entry),
            None => entries_of(rows.drop_last()),
        }
    }
}

fn read_entry(
    package: &Vec<char>,
    overlay_hash: &Vec<char>,
    applied_ms: &Vec<char>,
) -> (r: Option<ManagedGameDownscale>)
    ensures
        match r {
            Some(entry) => entry_of(package@, overlay_hash@, applied_ms@) == Some(entry.model()),
            None => entry_of(package@, overlay_hash@, applied_ms@) is None,
        },
{
    if !package_name::is_package_name(package, true) || !is_hex_text(overlay_hash) {
        return None;
    }
    match text::read_u64(applied_ms) {
        Some(ms) => Some(
            ManagedGameDownscale {
                package: text::string_of(package),
                overlay_hash: text::string_of(overlay_hash),
                applied_ms: ms,
            },
        ),
        None => None,
    }
}

fn read_row(row: &Vec<char>) -> (r: Option<ManagedGameDownscale>)
    ensures
        match r {
            Some(entry) => entry_of_row(row@) == Some(entry.model()),
            None => entry_of_row(row@) is None,
        },
{
    let columns = text::split_at_char(row, '\t');
    let ghost all = text::split(row@, '\t');
    assert(all.len() == columns.len());
    assert(forall|k: int| 0 <= k < all.len() ==> #[trigger] all[k] == columns@[k]@);
    if columns.len() == 3 {
        return read_entry(&columns[0], &columns[1], &columns[2]);
    }
    if columns.len() == 4 {
        assert(all[1] == columns@[1]@);
        if text::same_as_str(&columns[1], "standard") || text::same_as_str(
            &columns[1],
            "performance",
        ) || text::same_as_str(&columns[1], "battery") {
            return read_entry(&columns[0], &columns[2], &columns[3]);
        }
    }
    None
}

/// Reads what was done to scale games down: one row on a line; what is no row is
/// passed over.
pub fn parse_managed_game_downscales(content: &str) -> (r: ManagedGameDownscales)
    ensures
        r@ == entries_of(text::lines(content@)),
{
    let lines = text::lines_of(&text::chars_of(content));
    let ghost all = text::lines(content@);
    let mut state = ManagedGameDownscales::default();
    let mut i: usize = 0;
    assert(all.take(0) == Seq::<Seq<char>>::empty());
    while i < lines.len()
        invariant
            i <= lines.len(),
            all == text::texts(lines@),
            state@ == entries_of(all.take(i as int)),
        decreases lines.len() - i,
    {
        proof {
            assert(all.take(i + 1).drop_last() == all.take(i as int));
            assert(all.take(i + 1).last() == lines@[i as int]@);
        }
        match read_row(&lines[i]) {
            Some(entry) => {
                state.insert(entry);
            },
            None => {},
        }
        i += 1;
    }
    assert(all.take(i as int) == all);
    state
}

/// What a file states was done to scale games down, given what reading the file
/// gave. Without the file nothing was done.
pub fn load_managed_game_downscales(read: Result<String, EngineError>) -> (r: Result<
    ManagedGameDownscales,
    EngineError,
>)
    ensures
        match read {
            Ok(content) => r matches Ok(state) && state@ == entries_of(text::lines(content@)),
            Err(e) => if e@ matches error::ErrorModel::Io { kind, .. } && kind
                == error::IoErrorKind::NotFound {
                r matches Ok(state) && state@ == Map::<Seq<char>, DownscaleModel>::empty()
            } else {
                r == Err::<ManagedGameDownscales, EngineError>(e)
            },
        },
{
    match read {
        Ok(content) => Ok(parse_managed_game_downscales(content.as_str())),
        Err(e) => if e.is_not_found() {
            Ok(ManagedGameDownscales::default())
        } else {
            Err(e)
        },
    }
}

/// The row that states an entry.
pub open spec fn row_of(entry: DownscaleModel) -> Seq<char> {
    entry.package + "\t"@ + entry.overlay_hash + "\t"@ + text::decimal(entry.applied_ms as nat)
}

/// The rows of the entries of some packages, each with a line feed after it.
pub open spec fn rows_text(
    entries: Map<Seq<char>, DownscaleModel>,
    packages: Seq<Seq<char>>,
) -> Seq<char>
    decreases packages.len(),
{
    if packages.len() == 0 {
        Seq::empty()
    } else {
        rows_text(entries, packages.drop_last()) + row_of(entries[packages.last()]) + "\n"@
    }
}

/// The text that states what was done to scale games down: a row for each
/// package, in order.
pub fn write_managed_game_downscales(state: &ManagedGameDownscales) -> (r: String)
    ensures
        exists|packages: Seq<Seq<char>>|
            {
                &&& #[trigger] ordered::lists(packages, state@, String::order())
                &&& r@ == rows_text(state@, packages)
            },
{
    let n: usize = state.entries.len();
    let ghost names = state.entries.names();
    let mut r = String::new();
    let mut i: usize = 0;
    assert(names.take(0) == Seq::<Seq<char>>::empty());
    while i < n
        invariant
            i <= n,
            n == state.entries.names().len(),
            names == state.entries.names(),
            r@ == rows_text(state@, names.take(i as int)),
        decreases n - i,
    {
        let entry = state.entries.value_at(i);
        let ghost start = r@;
        text::push_str(&mut r, entry.package.as_str());
        text::push_str(&mut r, "\t");
        text::push_str(&mut r, entry.overlay_hash.as_str());
        text::push_str(&mut r, "\t");
        text::push_decimal(&mut r, entry.applied_ms as u128);
        text::push_str(&mut r, "\n");
        proof {
            assert(names.take(i + 1).drop_last() == names.take(i as int));
            assert(names.take(i + 1).last() == names[i as int]);
            assert(r@ =~= start + row_of(state@[names[i as int]]) + "\n"@);
        }
        i += 1;
    }
    assert(names.take(n as int) == names);
    assert(ordered::lists(names, state@, String::order()));
    r
}

/// The name of the file that is written before it takes the place of another:
/// hidden, with the other's name, the process and the time in it.
pub open spec fn temporary_name(path: Seq<u8>, process_id: u32, nanos: u128) -> Seq<char> {
    let name = match path::file_name(path) {
        Some(name) if vstd::utf8::valid_utf8(name) => vstd::utf8::decode_utf8(name),
        _ => "game_state.tsv"@,
    };
    "."@ + name + ".tmp."@ + text::decimal(process_id as nat) + "."@ + text::decimal(nanos as nat)
}

/// The name of the file that a process writes at a time before it takes the place
/// of another.
pub fn temporary_file_name(path: &EnginePath, process_id: u32, nanos: u128) -> (r: String)
    ensures
        r@ == temporary_name(path@, process_id, nanos),
{
    let known: Option<String> = match path.file_name() {
        Some(name) => path::text_of(name.as_slice()),
        None => None,
    };
    let name: String = match known {
        Some(name) => name,
        None => "game_state.tsv".to_owned(),
    };
    let mut r = ".".to_owned();
    text::push_str(&mut r, name.as_str());
    text::push_str(&mut r, ".tmp.");
    text::push_decimal(&mut r, process_id as u128);
    text::push_str(&mut r, ".");
    text::push_decimal(&mut r, nanos);
    r
}

// ---------------------------------------------------------------------------
// Reading back what was written
// ---------------------------------------------------------------------------

/// Whether entries can be written so that they are read back: each stands under
/// its own package, which is a package name, and has a hash of hexadecimal
/// digits.
pub open spec fn writable(entries: Map<Seq<char>, DownscaleModel>) -> bool {
    forall|p: Seq<char>| #[trigger]
        entries.contains_key(p) ==> entries[p].package == p && package_name::package_ok(p, true)
            && hex_text(entries[p].overlay_hash)
}

/// Whether a text does not hold a character.
spec fn free_of(s: Seq<char>, c: char) -> bool {
    forall|i: int| 0 <= i < s.len() ==> #[trigger] s[i] != c
}

proof fn lemma_split_plain(s: Seq<char>, sep: char)
    requires
        free_of(s, sep),
    ensures
        text::split(s, sep) == seq![s],
{
    text_laws::law_one_piece(s, sep);
}

proof fn lemma_split_more(s: Seq<char>, t: Seq<char>, sep: char)
    requires
        free_of(t, sep),
    ensures
        text::split(s + t, sep) == text::split(s, sep).drop_last().push(
            text::split(s, sep).last() + t,
        ),
    decreases t.len(),
{
    text::lemma_split_nonempty(s, sep);
    let pieces = text::split(s, sep);
    if t.len() == 0 {
        assert(s + t == s);
        assert(pieces.last() + t == pieces.last());
        assert(pieces.drop_last().push(pieces.last()) =~= pieces);
    } else {
        let front = t.drop_last();
        assert forall|i: int| 0 <= i < front.len() implies #[trigger] front[i] != sep by {
            assert(front[i] == t[i]);
        }
        lemma_split_more(s, front, sep);
        assert((s + t).drop_last() == s + front);
        assert((s + t).last() == t.last());
        assert(t[t.len() - 1] == t.last());
        let before = text::split(s + front, sep);
        assert(before.drop_last() =~= pieces.drop_last());
        assert((pieces.last() + front).push(t.last()) =~= pieces.last() + t);
    }
}

proof fn lemma_split_row(a: Seq<char>, b: Seq<char>, c: Seq<char>, sep: char)
    requires
        free_of(a, sep),
        free_of(b, sep),
        free_of(c, sep),
    ensures
        text::split(a.push(sep) + b.push(sep) + c, sep) == seq![a, b, c],
{
    lemma_split_plain(a, sep);
    assert(a.push(sep).drop_last() == a);
    assert(text::split(a.push(sep), sep) =~= seq![a, Seq::<char>::empty()]);
    lemma_split_more(a.push(sep), b, sep);
    let ab = a.push(sep) + b;
    assert(Seq::<char>::empty() + b =~= b);
    assert(text::split(ab, sep) =~= seq![a, b]);
    assert(ab.push(sep).drop_last() == ab);
    assert(text::split(ab.push(sep), sep) =~= seq![a, b, Seq::<char>::empty()]);
    lemma_split_more(ab.push(sep), c, sep);
    assert(Seq::<char>::empty() + c =~= c);
    assert(a.push(sep) + b.push(sep) + c =~= ab.push(sep) + c);
    assert(text::split(ab.push(sep) + c, sep) =~= seq![a, b, c]);
}

/// A package name holds only letters, digits, underscores and dots.
proof fn lemma_package_chars(s: Seq<char>, i: int)
    requires
        package_name::package_ok(s, true),
        0 <= i < s.len(),
    ensures
        package_name::segment_char(s[i]) || s[i] == '.',
{
    if s[i] != '.' {
        lemma_split_covers(s, '.', i);
        let pieces = text::split(s, '.');
        let (k, j) = choose|k: int, j: int|
            0 <= k < pieces.len() && 0 <= j < pieces[k].len() && #[trigger] pieces[k][j] == s[i];
        assert(package_name::segment_ok(pieces[k], true));
        if j == 0 {
            assert(pieces[k][0] == s[i]);
        } else {
            assert(package_name::segment_char(pieces[k][j]));
        }
    }
}

proof fn lemma_split_covers(s: Seq<char>, sep: char, i: int)
    requires
        0 <= i < s.len(),
        s[i] != sep,
    ensures
        exists|k: int, j: int|
            0 <= k < text::split(s, sep).len() && 0 <= j < text::split(s, sep)[k].len()
                && #[trigger] text::split(s, sep)[k][j] == s[i],
{
    text_laws::lemma_split_covers(s, sep, i);
}

proof fn lemma_row_reads_back(entry: DownscaleModel)
    requires
        package_name::package_ok(entry.package, true),
        hex_text(entry.overlay_hash),
    ensures
        entry_of_row(row_of(entry)) == Some(entry),
        free_of(row_of(entry), '\n'),
        row_of(entry).len() > 0,
        row_of(entry).last() != '\r',
{
    reveal_strlit("\t");
    let time = text::decimal(entry.applied_ms as nat);
    text::lemma_decimal(entry.applied_ms as nat);
    text::law_decimal_reads_back(entry.applied_ms as nat, u64::MAX as nat);
    let row = row_of(entry);
    let sep = '\t';
    assert(row =~= entry.package.push(sep) + entry.overlay_hash.push(sep) + time);
    assert forall|i: int| 0 <= i < entry.package.len() implies #[trigger] entry.package[i] != sep
        && entry.package[i] != '\n' by {
        lemma_package_chars(entry.package, i);
    }
    assert forall|i: int| 0 <= i < entry.overlay_hash.len() implies #[trigger] entry.overlay_hash[i]
        != sep && entry.overlay_hash[i] != '\n' by {
        assert(text::hex_digit(entry.overlay_hash[i]));
    }
    assert forall|i: int| 0 <= i < time.len() implies #[trigger] time[i] != sep && time[i]
        != '\n' by {
        assert(text::digit(time[i]));
    }
    lemma_split_row(entry.package, entry.overlay_hash, time, sep);
    assert forall|i: int| 0 <= i < row.len() implies #[trigger] row[i] != '\n' by {
        let a = entry.package.len() as int;
        let b = entry.overlay_hash.len() as int;
        if i < a {
            assert(row[i] == entry.package[i]);
        } else if a < i < a + 1 + b {
            assert(row[i] == entry.overlay_hash[i - a - 1]);
        } else if i > a + 1 + b {
            assert(row[i] == time[i - a - b - 2]);
        }
    }
    assert(row.last() == time[time.len() - 1]);
    assert(text::digit(time[time.len() - 1]));
}

/// The rows of the entries of some packages.
spec fn rows_for(entries: Map<Seq<char>, DownscaleModel>, packages: Seq<Seq<char>>) -> Seq<
    Seq<char>,
> {
    Seq::new(packages.len(), |i: int| row_of(entries[packages[i]]))
}

proof fn lemma_rows_split(
    entries: Map<Seq<char>, DownscaleModel>,
    packages: Seq<Seq<char>>,
)
    requires
        writable(entries),
        forall|i: int| 0 <= i < packages.len() ==> entries.contains_key(#[trigger] packages[i]),
    ensures
        text::split(rows_text(entries, packages), '\n') == rows_for(entries, packages).push(
            Seq::empty(),
        ),
    decreases packages.len(),
{
    reveal_strlit("\n");
    if packages.len() == 0 {
        assert(rows_for(entries, packages).push(Seq::empty()) =~= seq![Seq::<char>::empty()]);
    } else {
        let front = packages.drop_last();
        assert forall|i: int| 0 <= i < front.len() implies entries.contains_key(
            #[trigger] front[i],
        ) by {
            assert(front[i] == packages[i]);
        }
        lemma_rows_split(entries, front);
        let before = rows_text(entries, front);
        assert(packages[packages.len() - 1] == packages.last());
        let row = row_of(entries[packages.last()]);
        lemma_row_reads_back(entries[packages.last()]);
        lemma_split_more(before, row, '\n');
        let pieces = text::split(before, '\n');
        assert(pieces.drop_last() =~= rows_for(entries, front));
        assert(pieces.last() =~= Seq::<char>::empty());
        assert(pieces.last() + row =~= row);
        let whole = rows_text(entries, packages);
        assert(whole =~= (before + row).push('\n'));
        assert(whole.drop_last() =~= before + row);
        assert(rows_for(entries, packages) =~= rows_for(entries, front).push(row));
    }
}

proof fn lemma_rows_lines(
    entries: Map<Seq<char>, DownscaleModel>,
    packages: Seq<Seq<char>>,
)
    requires
        writable(entries),
        forall|i: int| 0 <= i < packages.len() ==> entries.contains_key(#[trigger] packages[i]),
    ensures
        text::lines(rows_text(entries, packages)) == rows_for(entries, packages),
{
    lemma_rows_split(entries, packages);
    let rows = rows_for(entries, packages);
    let pieces = rows.push(Seq::empty());
    let ended = Seq::new((pieces.len() - 1) as nat, |i: int| text::chomp(pieces[i]));
    assert forall|i: int| 0 <= i < rows.len() implies ended[i] == rows[i] by {
        assert(entries.contains_key(packages[i]));
        lemma_row_reads_back(entries[packages[i]]);
        assert(pieces[i] == row_of(entries[packages[i]]));
    }
    assert(ended =~= rows);
}

proof fn lemma_entries_of_rows(
    entries: Map<Seq<char>, DownscaleModel>,
    packages: Seq<Seq<char>>,
)
    requires
        writable(entries),
        forall|i: int| 0 <= i < packages.len() ==> entries.contains_key(#[trigger] packages[i]),
    ensures
        forall|p: Seq<char>| #[trigger]
            entries_of(rows_for(entries, packages)).contains_key(p) <==> packages.contains(p),
        forall|p: Seq<char>| #[trigger]
            entries_of(rows_for(entries, packages)).contains_key(p) ==> entries_of(
                rows_for(entries, packages),
            )[p] == entries[p],
    decreases packages.len(),
{
    let rows = rows_for(entries, packages);
    if packages.len() > 0 {
        let front = packages.drop_last();
        assert forall|i: int| 0 <= i < front.len() implies entries.contains_key(
            #[trigger] front[i],
        ) by {
            assert(front[i] == packages[i]);
        }
        lemma_entries_of_rows(entries, front);
        assert(rows.drop_last() =~= rows_for(entries, front));
        let name = packages.last();
        assert(packages[packages.len() - 1] == name);
        assert(rows.last() == row_of(entries[name]));
        lemma_row_reads_back(entries[name]);
        assert forall|p: Seq<char>| #[trigger] entries_of(rows).contains_key(p) <==> packages.contains(
            p,
        ) by {
            assert(entries_of(rows_for(entries, front)).contains_key(p) <==> front.contains(p));
            if packages.contains(p) {
                let k = packages.index_of(p);
                if k < front.len() {
                    assert(front[k] == p);
                }
            }
            if front.contains(p) {
                let k = front.index_of(p);
                assert(packages[k] == p);
            }
        }
        assert forall|p: Seq<char>| #[trigger] entries_of(rows).contains_key(p) implies entries_of(
            rows,
        )[p] == entries[p] by {
            assert(entries_of(rows_for(entries, front)).contains_key(p) || p == name);
        }
    }
}

/// Reading the text that states entries gives back exactly those entries.
pub proof fn law_written_entries_read_back(
    entries: Map<Seq<char>, DownscaleModel>,
    packages: Seq<Seq<char>>,
)
    requires
        writable(entries),
        ordered::lists(packages, entries, String::order()),
    ensures
        entries_of(text::lines(rows_text(entries, packages))) == entries,
{
    assert forall|i: int| 0 <= i < packages.len() implies entries.contains_key(
        #[trigger] packages[i],
    ) by {
        assert(packages.contains(packages[i]));
    }
    lemma_rows_lines(entries, packages);
    lemma_entries_of_rows(entries, packages);
    let back = entries_of(rows_for(entries, packages));
    assert forall|p: Seq<char>| back.contains_key(p) <==> entries.contains_key(p) by {
        assert(entries.contains_key(p) <==> packages.contains(p));
    }
    assert(back =~= entries);
}

/// What is read can be written and read back.
pub proof fn law_read_entries_are_writable(rows: Seq<Seq<char>>)
    ensures
        writable(entries_of(rows)),
    decreases rows.len(),
{
    if rows.len() > 0 {
        law_read_entries_are_writable(rows.drop_last());
        assert forall|p: Seq<char>| #[trigger] entries_of(rows).contains_key(p) implies entries_of(
            rows,
        )[p].package == p && package_name::package_ok(p, true) && hex_text(
            entries_of(rows)[p].overlay_hash,
        ) by {
            if entries_of(rows.drop_last()).contains_key(p) {
            }
        }
    }
}

/// Every game list entry is a package name.
pub proof fn law_games_are_packages(lines: Seq<Seq<char>>, p: Seq<char>)
    requires
        games_in(lines).contains(p),
    ensures
        package_name::package_ok(p, true),
{
}

/// The targets among the installed packages are games, and installed.
pub proof fn law_targets_are_installed_games(
    games: Set<Seq<char>>,
    installed: Set<Seq<char>>,
    p: Seq<char>,
)
    ensures
        games.intersect(installed).contains(p) <==> games.contains(p) && installed.contains(p),
        games.intersect(installed).subset_of(games),
        installed_games(games, installed).contains(p) <==> games.contains(p) && installed.contains(p),
        installed_games(games, installed).subset_of(games),
{
}

} // verus!
