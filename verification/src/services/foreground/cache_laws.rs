//! What the package list and the cache of it say of packages and UIDs.
use vstd::prelude::*;

use crate::ordered::Key;
use crate::services::foreground::cache::{CacheModel, EntryModel, SnapshotModel, UidStateModel};
use crate::{ordered, package_name, path, services::foreground::cache, text, text_laws};

verus! {

// ---------------------------------------------------------------------------
// The package list
// ---------------------------------------------------------------------------

/// The word that states a package.
pub open spec fn package_word(package: Seq<char>) -> Seq<char> {
    seq!['p', 'a', 'c', 'k', 'a', 'g', 'e', ':'] + package
}

/// The word that states a UID.
pub open spec fn uid_word(number: Seq<char>) -> Seq<char> {
    seq!['u', 'i', 'd', ':'] + number
}

proof fn lemma_package_word(package: Seq<char>)
    ensures
        text::strip_prefix(package_word(package), "package:"@) == Some(package),
        package_name::package_ok(package, false) ==> text_laws::solid(package_word(package)),
{
    reveal_strlit("package:");
    assert("package:"@ =~= seq!['p', 'a', 'c', 'k', 'a', 'g', 'e', ':']);
    text_laws::law_prefix_comes_off("package:"@, package);
    if package_name::package_ok(package, false) {
        text_laws::law_package_characters(package, false);
        let word = package_word(package);
        assert forall|i: int| 0 <= i < word.len() implies !text::white_space(
            #[trigger] word[i],
        ) by {
            if i >= 8 {
                assert(word[i] == package[i - 8]);
            }
        }
    }
}

proof fn lemma_uid_word(number: Seq<char>)
    ensures
        text::strip_prefix(uid_word(number), "package:"@) is None,
        text::strip_prefix(uid_word(number), "uid:"@) == Some(number),
        text_laws::solid(number) ==> text_laws::solid(uid_word(number)),
{
    reveal_strlit("package:");
    reveal_strlit("uid:");
    assert("uid:"@ =~= seq!['u', 'i', 'd', ':']);
    text_laws::law_prefix_comes_off("uid:"@, number);
    text_laws::law_other_start_keeps_prefix(uid_word(number), "package:"@, 0);
    if text_laws::solid(number) {
        let word = uid_word(number);
        assert forall|i: int| 0 <= i < word.len() implies !text::white_space(
            #[trigger] word[i],
        ) by {
            if i >= 4 {
                assert(word[i] == number[i - 4]);
            }
        }
    }
}

proof fn lemma_decimal_is_solid(n: nat)
    ensures
        text_laws::solid(text::decimal(n)),
        text::decimal(n).len() > 0,
{
    text::lemma_decimal(n);
    let s = text::decimal(n);
    assert forall|i: int| 0 <= i < s.len() implies !text::white_space(#[trigger] s[i]) by {
        assert(text::digit(s[i]));
    }
}

proof fn lemma_two_tokens(a: Seq<char>, space: char, b: Seq<char>)
    requires
        a.len() > 0,
        b.len() > 0,
        text_laws::solid(a),
        text_laws::solid(b),
        text::white_space(space),
    ensures
        text::words(a + seq![space] + b) == seq![a, b],
        cache::token_scan(seq![a, b]) == ({
            let (package, uid) = cache::token_scan(seq![a]);
            match text::strip_prefix(b, "package:"@) {
                Some(value) => if package_name::package_ok(value, false) {
                    (Some(value), uid)
                } else {
                    (package, uid)
                },
                None => match text::strip_prefix(b, "uid:"@) {
                    Some(value) => (package, text::parse_unsigned(value, u32::MAX as nat)),
                    None => (package, uid),
                },
            }
        }),
        cache::token_scan(seq![a]) == match text::strip_prefix(a, "package:"@) {
            Some(value) => if package_name::package_ok(value, false) {
                (Some(value), None::<nat>)
            } else {
                (None, None)
            },
            None => match text::strip_prefix(a, "uid:"@) {
                Some(value) => (None, text::parse_unsigned(value, u32::MAX as nat)),
                None => (None, None),
            },
        },
{
    text_laws::law_first_word(a, space, b);
    text_laws::law_last_word(b);
    assert(seq![a] + seq![b] =~= seq![a, b]);
    assert(seq![a, b].drop_last() =~= seq![a]);
    assert(seq![a].drop_last() =~= Seq::<Seq<char>>::empty());
    assert(cache::token_scan(Seq::<Seq<char>>::empty()) == (None::<Seq<char>>, None::<nat>));
}

/// A line that states a well-formed package and the decimal of any `u32`, in
/// either order, states the entry of that package and that UID.
pub proof fn law_line_states_entry(package: Seq<char>, space: char, uid: u32)
    requires
        package_name::package_ok(package, false),
        text::white_space(space),
    ensures
        cache::line_entry(
            package_word(package) + seq![space] + uid_word(text::decimal(uid as nat)),
        ) == Some(EntryModel { package, uid, base_apk_path: None }),
        cache::line_entry(
            uid_word(text::decimal(uid as nat)) + seq![space] + package_word(package),
        ) == Some(EntryModel { package, uid, base_apk_path: None }),
{
    let number = text::decimal(uid as nat);
    lemma_package_word(package);
    lemma_decimal_is_solid(uid as nat);
    lemma_uid_word(number);
    text::law_decimal_reads_back(uid as nat, u32::MAX as nat);
    lemma_two_tokens(package_word(package), space, uid_word(number));
    lemma_two_tokens(uid_word(number), space, package_word(package));
}

/// A line without a well-formed package or without the decimal of a `u32` states
/// no entry.
pub proof fn law_line_without_entry(package: Seq<char>, space: char, number: Seq<char>)
    requires
        text_laws::solid(package),
        text_laws::solid(number),
        text::white_space(space),
        !package_name::package_ok(package, false) || text::parse_unsigned(
            number,
            u32::MAX as nat,
        ) is None,
    ensures
        cache::line_entry(package_word(package) + seq![space] + uid_word(number)) is None,
        cache::line_entry(package_word(package)) is None,
        cache::line_entry(uid_word(number)) is None,
{
    lemma_package_word(package);
    lemma_uid_word(number);
    let word = package_word(package);
    assert forall|i: int| 0 <= i < word.len() implies !text::white_space(#[trigger] word[i]) by {
        if i >= 8 {
            assert(word[i] == package[i - 8]);
        }
    }
    lemma_two_tokens(word, space, uid_word(number));
    lemma_two_tokens(uid_word(number), space, word);
    text_laws::law_last_word(word);
    text_laws::law_last_word(uid_word(number));
}

/// A word behind a line that states neither a package nor a UID makes no
/// difference. Of several packages or UIDs the last counts: a well-formed package
/// behind a line replaces its package, the decimal of a `u32` replaces its UID, and
/// each leaves the other as it was.
pub proof fn law_words_behind_line(
    line: Seq<char>,
    space: char,
    word: Seq<char>,
    package: Seq<char>,
    uid: u32,
)
    requires
        text::white_space(space),
        word.len() > 0,
        text_laws::solid(word),
        text::strip_prefix(word, seq!['p', 'a', 'c', 'k', 'a', 'g', 'e', ':']) is None,
        text::strip_prefix(word, seq!['u', 'i', 'd', ':']) is None,
        package_name::package_ok(package, false),
    ensures
        cache::line_entry(line + seq![space] + word) == cache::line_entry(line),
        cache::line_entry(line) matches Some(entry) ==> cache::line_entry(
            line + seq![space] + package_word(package),
        ) == Some(EntryModel { package, uid: entry.uid, base_apk_path: None })
            && cache::line_entry(line + seq![space] + uid_word(text::decimal(uid as nat)))
            == Some(EntryModel { package: entry.package, uid, base_apk_path: None }),
{
    reveal_strlit("package:");
    reveal_strlit("uid:");
    assert("uid:"@ =~= seq!['u', 'i', 'd', ':']);
    assert("package:"@ =~= seq!['p', 'a', 'c', 'k', 'a', 'g', 'e', ':']);
    let number = text::decimal(uid as nat);
    lemma_package_word(package);
    lemma_decimal_is_solid(uid as nat);
    lemma_uid_word(number);
    text::law_decimal_reads_back(uid as nat, u32::MAX as nat);
    let words = text::words(line);
    text_laws::law_word_behind(line, space, word);
    assert(words.push(word).drop_last() =~= words);
    text_laws::law_word_behind(line, space, package_word(package));
    assert(words.push(package_word(package)).drop_last() =~= words);
    text_laws::law_word_behind(line, space, uid_word(number));
    assert(words.push(uid_word(number)).drop_last() =~= words);
}

proof fn lemma_first_entry(first: Seq<char>, lines: Seq<Seq<char>>)
    ensures
        cache::entries_of(seq![first] + lines) == (match cache::line_entry(first) {
            Some(entry) => seq![entry],
            None => Seq::empty(),
        }) + cache::entries_of(lines),
    decreases lines.len(),
{
    let all = seq![first] + lines;
    let head = match cache::line_entry(first) {
        Some(entry) => seq![entry],
        None => Seq::empty(),
    };
    if lines.len() == 0 {
        assert(all.drop_last() =~= Seq::<Seq<char>>::empty());
        assert(all.last() == first);
        assert(cache::entries_of(all.drop_last()) =~= Seq::<EntryModel>::empty());
        assert(cache::entries_of(all) =~= head + cache::entries_of(lines));
    } else {
        lemma_first_entry(first, lines.drop_last());
        assert(all.drop_last() =~= seq![first] + lines.drop_last());
        assert(all.last() == lines.last());
        assert(cache::entries_of(all) =~= head + cache::entries_of(lines));
    }
}

/// The output of the package list command is read line by line: what its first
/// line states comes first, and what the rest of the output states follows. No
/// line is left out and none is read twice.
pub proof fn law_listing_goes_line_by_line(line: Seq<char>, rest: Seq<char>)
    requires
        text_laws::lacks(line, '\n'),
        line.len() == 0 || line.last() != '\r',
    ensures
        cache::listed(vstd::utf8::encode_utf8(line + seq!['\n'] + rest)) == (
        match cache::line_entry(line) {
            Some(entry) => seq![entry],
            None => Seq::empty(),
        }) + cache::listed(vstd::utf8::encode_utf8(rest)),
        cache::listed(vstd::utf8::encode_utf8(line)) == (match cache::line_entry(line) {
            Some(entry) => seq![entry],
            None => Seq::<EntryModel>::empty(),
        }),
{
    broadcast use vstd::utf8::encode_utf8_decode_utf8;
    broadcast use vstd::utf8::encode_utf8_valid_utf8;

    text_laws::law_first_line(line, rest);
    lemma_first_entry(line, text::lines(rest));
    text_laws::law_last_line(line);
    let none = Seq::<Seq<char>>::empty();
    lemma_first_entry(line, none);
    assert(seq![line] + none =~= seq![line]);
    assert(cache::entries_of(none) =~= Seq::<EntryModel>::empty());
    if line.len() == 0 {
        assert(text::words(line) =~= Seq::<Seq<char>>::empty()) by {
            text_laws::law_last_word(line);
        }
        assert(cache::line_entry(line) is None);
    } else {
        assert(cache::entries_of(seq![line]) =~= match cache::line_entry(line) {
            Some(entry) => seq![entry],
            None => Seq::<EntryModel>::empty(),
        });
    }
}

/// Output that is not UTF-8 states nothing.
pub proof fn law_unreadable_listing_is_empty(stdout: Seq<u8>)
    requires
        !vstd::utf8::valid_utf8(stdout),
    ensures
        cache::listed(stdout).len() == 0,
{
}

/// The command asks the package manager for the packages of one user with their
/// UIDs.
pub proof fn law_command_asks_for_user(command: Seq<u8>, user: u32)
    ensures
        cache::package_list_argv(command, user).len() == 7,
        cache::package_list_argv(command, user)[0] == path::text_in(command),
        cache::package_list_argv(command, user)[1] == "package"@,
        cache::package_list_argv(command, user)[2] == "list"@,
        cache::package_list_argv(command, user)[3] == "packages"@,
        cache::package_list_argv(command, user)[4] == "-U"@,
        cache::package_list_argv(command, user)[5] == "--user"@,
        text::parse_unsigned(cache::package_list_argv(command, user)[6], u32::MAX as nat) == Some(
            user as nat,
        ),
{
    text::law_decimal_reads_back(user as nat, u32::MAX as nat);
}

proof fn lemma_lex_at<T>(a: Seq<T>, b: Seq<T>, lt: spec_fn(T, T) -> bool, k: int)
    requires
        0 <= k < b.len(),
        k <= a.len(),
        forall|i: int| 0 <= i < k ==> #[trigger] a[i] == b[i],
        k < a.len() ==> a[k] != b[k] && lt(a[k], b[k]),
    ensures
        ordered::lex(a, b, lt),
    decreases k,
{
    if k > 0 {
        assert(a[0] == b[0]);
        assert forall|i: int| 0 <= i < k - 1 implies #[trigger] a.skip(1)[i] == b.skip(1)[i] by {
            assert(a[i + 1] == b[i + 1]);
        }
        lemma_lex_at(a.skip(1), b.skip(1), lt, k - 1);
    }
}

/// Of two entries in order the earlier has the smaller package, by its first
/// character that differs or by being a prefix of the other, and of two entries
/// with one package the earlier has the smaller UID.
pub proof fn law_entries_stand_in_order(s: Seq<EntryModel>, i: int, j: int, k: int)
    requires
        cache::in_order(s),
        0 <= i < j < s.len(),
        0 <= k <= s[i].package.len(),
        k <= s[j].package.len(),
        forall|c: int| 0 <= c < k ==> #[trigger] s[i].package[c] == s[j].package[c],
    ensures
        k < s[i].package.len() ==> k < s[j].package.len() && s[i].package[k] <= s[j].package[k],
        s[i].package == s[j].package ==> s[i].uid <= s[j].uid,
{
    let a = s[i].package;
    let b = s[j].package;
    assert(!cache::entry_before(s[j], s[i]));
    if k < a.len() && (k == b.len() || b[k] < a[k]) {
        assert forall|c: int| 0 <= c < k implies #[trigger] b[c] == a[c] by {
            assert(a[c] == b[c]);
        }
        lemma_lex_at(b, a, ordered::char_order(), k);
    }
}

// ---------------------------------------------------------------------------
// Credibility
// ---------------------------------------------------------------------------

proof fn lemma_no_service(entries: Seq<EntryModel>)
    requires
        forall|i: int|
            0 <= i < entries.len() ==> ({
                let uid = (#[trigger] entries[i]).uid;
                uid != 0 && uid != 1000 && uid != 1023 && uid != 2000 && uid != 9997
            }),
    ensures
        cache::system_count(entries) == 0,
    decreases entries.len(),
{
    if entries.len() > 0 {
        let front = entries.drop_last();
        assert forall|i: int| 0 <= i < front.len() implies ({
            let uid = (#[trigger] front[i]).uid;
            uid != 0 && uid != 1000 && uid != 1023 && uid != 2000 && uid != 9997
        }) by {
            assert(front[i] == entries[i]);
        }
        lemma_no_service(front);
        assert(entries[entries.len() - 1] == entries.last());
    }
}

proof fn lemma_services_add_up(a: Seq<EntryModel>, b: Seq<EntryModel>)
    ensures
        cache::system_count(a + b) == cache::system_count(a) + cache::system_count(b),
    decreases b.len(),
{
    if b.len() == 0 {
        assert(a + b =~= a);
    } else {
        lemma_services_add_up(a, b.drop_last());
        assert((a + b).drop_last() =~= a + b.drop_last());
        assert((a + b).last() == b.last());
    }
}

proof fn lemma_all_services(entries: Seq<EntryModel>)
    requires
        forall|i: int|
            0 <= i < entries.len() ==> ({
                let uid = (#[trigger] entries[i]).uid;
                uid == 0 || uid == 1000 || uid == 1023 || uid == 2000 || uid == 9997
            }),
    ensures
        cache::system_count(entries) == entries.len(),
    decreases entries.len(),
{
    if entries.len() > 0 {
        let front = entries.drop_last();
        assert forall|i: int| 0 <= i < front.len() implies ({
            let uid = (#[trigger] front[i]).uid;
            uid == 0 || uid == 1000 || uid == 1023 || uid == 2000 || uid == 9997
        }) by {
            assert(front[i] == entries[i]);
        }
        lemma_all_services(front);
        assert(entries[entries.len() - 1] == entries.last());
    }
}

/// Of a list that starts with system services and goes on with other packages:
/// it is believed exactly if it is long enough, some UID in it is that of an
/// installed application, and the services are not more than the others.
pub proof fn law_credible_lists(
    services: Seq<EntryModel>,
    others: Seq<EntryModel>,
    min_entries: nat,
)
    requires
        forall|i: int|
            0 <= i < services.len() ==> ({
                let uid = (#[trigger] services[i]).uid;
                uid == 0 || uid == 1000 || uid == 1023 || uid == 2000 || uid == 9997
            }),
        forall|i: int|
            0 <= i < others.len() ==> ({
                let uid = (#[trigger] others[i]).uid;
                uid != 0 && uid != 1000 && uid != 1023 && uid != 2000 && uid != 9997
            }),
    ensures
        cache::credible(services + others, min_entries) == (services.len() + others.len()
            >= min_entries && services.len() <= others.len() && exists|i: int|
            0 <= i < others.len() && (#[trigger] others[i]).uid >= 10_000),
{
    let all = services + others;
    lemma_all_services(services);
    lemma_no_service(others);
    lemma_services_add_up(services, others);
    if exists|i: int| 0 <= i < others.len() && (#[trigger] others[i]).uid >= 10_000 {
        let i = choose|i: int| 0 <= i < others.len() && (#[trigger] others[i]).uid >= 10_000;
        assert(all[services.len() + i] == others[i]);
    }
    if exists|i: int| 0 <= i < all.len() && (#[trigger] all[i]).uid >= cache::FIRST_APP_UID {
        let i = choose|i: int|
            0 <= i < all.len() && (#[trigger] all[i]).uid >= cache::FIRST_APP_UID;
        if i < services.len() {
            assert(all[i] == services[i]);
        } else {
            assert(all[i] == others[i - services.len()]);
        }
    }
}

/// The order of a list makes no difference to whether it is believed.
pub proof fn law_credible_in_any_order(
    a: Seq<EntryModel>,
    b: Seq<EntryModel>,
    min_entries: nat,
)
    ensures
        cache::credible(a + b, min_entries) == cache::credible(b + a, min_entries),
{
    lemma_services_add_up(a, b);
    lemma_services_add_up(b, a);
    let ab = a + b;
    let ba = b + a;
    assert forall|i: int| 0 <= i < ab.len() implies exists|j: int|
        0 <= j < ba.len() && ba[j] == #[trigger] ab[i] by {
        let j = if i < a.len() {
            i + b.len()
        } else {
            i - a.len()
        };
        assert(ba[j] == ab[i]);
    }
    assert forall|i: int| 0 <= i < ba.len() implies exists|j: int|
        0 <= j < ab.len() && ab[j] == #[trigger] ba[i] by {
        let j = if i < b.len() {
            i + a.len()
        } else {
            i - b.len()
        };
        assert(ab[j] == ba[i]);
    }
}

// ---------------------------------------------------------------------------
// The cache
// ---------------------------------------------------------------------------

/// Whether some entry states a package under a UID.
pub open spec fn stated(entries: Seq<EntryModel>, package: Seq<char>, uid: u32) -> bool {
    exists|i: int|
        0 <= i < entries.len() && (#[trigger] entries[i]).uid == uid && entries[i].package
            == package
}

/// A cache of a snapshot lists under a UID the packages that entries state under
/// it, each once and in order, and no others. What it says of the UID follows: one
/// package is the package, several share it, and none means that it is missing.
pub proof fn law_cache_lists_stated_packages(
    known: CacheModel,
    snapshot: SnapshotModel,
    uid: u32,
    package: Seq<char>,
)
    requires
        cache::holds_snapshot(known, snapshot),
    ensures
        stated(snapshot.entries, package, uid) <==> known.packages.contains_key(uid)
            && known.packages[uid].contains(package),
        known.packages.contains_key(uid) ==> known.packages[uid].no_duplicates()
            && ordered::increasing(
            known.packages[uid],
            ordered::lex_order(ordered::char_order()),
        ),
        known.uid_state(uid) == UidStateModel::Exact(package) <==> stated(
            snapshot.entries,
            package,
            uid,
        ) && forall|other: Seq<char>| #[trigger]
            stated(snapshot.entries, other, uid) ==> other == package,
        known.uid_state(uid) is Missing <==> forall|other: Seq<char>|
            !#[trigger] stated(snapshot.entries, other, uid),
        known.uid_state(uid) matches UidStateModel::Ambiguous(list) ==> list
            == known.packages[uid] && list.len() >= 2,
{
    let entries = snapshot.entries;
    let set = cache::packages_of(entries, uid);
    assert forall|p: Seq<char>| set.contains(p) <==> #[trigger] stated(entries, p, uid) by {}
    if known.packages.contains_key(uid) {
        let list = known.packages[uid];
        assert(ordered::enumerates(list, set, String::order()));
        assert(set.contains(package) <==> list.contains(package));
        if list.len() == 1 {
            assert forall|other: Seq<char>| #[trigger] stated(entries, other, uid) implies other
                == list[0] by {
                assert(set.contains(other));
                assert(list.contains(other));
            }
            assert(list.contains(list[0]));
            assert(set.contains(list[0]));
            assert(stated(entries, list[0], uid));
        } else if list.len() >= 2 {
            assert(list.contains(list[0]));
            assert(list.contains(list[1]));
            assert(set.contains(list[0]));
            assert(set.contains(list[1]));
            assert(stated(entries, list[0], uid));
            assert(stated(entries, list[1], uid));
        } else {
            assert forall|other: Seq<char>| !#[trigger] stated(entries, other, uid) by {
                if stated(entries, other, uid) {
                    assert(set.contains(other));
                    assert(list.contains(other));
                }
            }
        }
    } else {
        assert(set == Set::<Seq<char>>::empty());
        assert forall|other: Seq<char>| !#[trigger] stated(entries, other, uid) by {
            assert(!set.contains(other));
        }
    }
}

/// A cache of a snapshot knows the UIDs of the packages that entries state, and of
/// no others; of several entries of a package the last counts.
pub proof fn law_last_entry_gives_uid(
    known: CacheModel,
    snapshot: SnapshotModel,
    package: Seq<char>,
    i: int,
)
    requires
        cache::holds_snapshot(known, snapshot),
        0 <= i < snapshot.entries.len(),
        snapshot.entries[i].package == package,
        forall|j: int|
            i < j < snapshot.entries.len() ==> (#[trigger] snapshot.entries[j]).package != package,
    ensures
        known.uids.contains_key(package),
        known.uids[package] == snapshot.entries[i].uid,
{
    cache::law_uid_of_package(snapshot.entries, i);
}

/// A cache knows no UID and no file of a package that no entry states.
pub proof fn law_unstated_package_is_unknown(
    known: CacheModel,
    snapshot: SnapshotModel,
    package: Seq<char>,
)
    requires
        cache::holds_snapshot(known, snapshot),
        forall|i: int|
            0 <= i < snapshot.entries.len() ==> (#[trigger] snapshot.entries[i]).package
                != package,
    ensures
        !known.uids.contains_key(package),
        !known.apks.contains_key(package),
{
    lemma_unstated(snapshot.entries, package);
}

proof fn lemma_unstated(entries: Seq<EntryModel>, package: Seq<char>)
    requires
        forall|i: int| 0 <= i < entries.len() ==> (#[trigger] entries[i]).package != package,
    ensures
        !cache::uids_of(entries).contains_key(package),
        !cache::apks_of(entries).contains_key(package),
    decreases entries.len(),
{
    if entries.len() > 0 {
        let front = entries.drop_last();
        assert forall|i: int| 0 <= i < front.len() implies (#[trigger] front[i]).package
            != package by {
            assert(front[i] == entries[i]);
        }
        lemma_unstated(front, package);
        assert(entries[entries.len() - 1] == entries.last());
    }
}

/// Of the entries of a package that have a file, the last gives the file that a
/// cache knows.
pub proof fn law_last_file_is_kept(
    known: CacheModel,
    snapshot: SnapshotModel,
    i: int,
    file: Seq<u8>,
)
    requires
        cache::holds_snapshot(known, snapshot),
        0 <= i < snapshot.entries.len(),
        snapshot.entries[i].base_apk_path == Some(file),
        forall|j: int|
            i < j < snapshot.entries.len() ==> (#[trigger] snapshot.entries[j]).package
                != snapshot.entries[i].package || snapshot.entries[j].base_apk_path is None,
    ensures
        known.apks.contains_key(snapshot.entries[i].package),
        known.apks[snapshot.entries[i].package] == file,
{
    lemma_last_file(snapshot.entries, i, file);
}

proof fn lemma_last_file(entries: Seq<EntryModel>, i: int, file: Seq<u8>)
    requires
        0 <= i < entries.len(),
        entries[i].base_apk_path == Some(file),
        forall|j: int|
            i < j < entries.len() ==> (#[trigger] entries[j]).package != entries[i].package
                || entries[j].base_apk_path is None,
    ensures
        cache::apks_of(entries).contains_key(entries[i].package),
        cache::apks_of(entries)[entries[i].package] == file,
    decreases entries.len(),
{
    if i < entries.len() - 1 {
        let front = entries.drop_last();
        assert forall|j: int| i < j < front.len() implies (#[trigger] front[j]).package
            != front[i].package || front[j].base_apk_path is None by {
            assert(front[j] == entries[j]);
        }
        lemma_last_file(front, i, file);
        assert(entries[entries.len() - 1] == entries.last());
        assert(front[i] == entries[i]);
    }
}

/// A cache of a snapshot says where it comes from and whether it can be believed.
pub proof fn law_cache_keeps_origin(known: CacheModel, snapshot: SnapshotModel)
    requires
        cache::holds_snapshot(known, snapshot),
    ensures
        known.source == Some(snapshot.source),
        known.coherent == snapshot.coherent,
{
}

proof fn lemma_services_in_any_order(a: Seq<EntryModel>, b: Seq<EntryModel>)
    requires
        a.to_multiset() == b.to_multiset(),
    ensures
        a.len() == b.len(),
        cache::system_count(a) == cache::system_count(b),
    decreases a.len(),
{
    a.to_multiset_ensures();
    b.to_multiset_ensures();
    if a.len() > 0 {
        let last = a.last();
        assert(a[a.len() - 1] == last);
        assert(a.contains(last));
        assert(a.to_multiset().count(last) > 0);
        assert(b.to_multiset().count(last) > 0);
        assert(b.contains(last));
        let k = choose|k: int| 0 <= k < b.len() && b[k] == last;
        let front = a.drop_last();
        assert(a.remove(a.len() - 1) =~= front);
        lemma_services_in_any_order(front, b.remove(k));
        let (before, after) = (b.take(k), b.skip(k + 1));
        let one = seq![last];
        assert(b =~= before + one + after);
        assert(b.remove(k) =~= before + after);
        lemma_services_add_up(before + one, after);
        lemma_services_add_up(before, one);
        lemma_services_add_up(before, after);
        assert(one.drop_last() =~= Seq::<EntryModel>::empty());
        assert(cache::system_count(one.drop_last()) == 0);
    }
}

/// Two lists of the same entries are believed alike.
pub proof fn law_credible_by_entries(a: Seq<EntryModel>, b: Seq<EntryModel>, min_entries: nat)
    requires
        a.to_multiset() == b.to_multiset(),
    ensures
        cache::credible(a, min_entries) == cache::credible(b, min_entries),
{
    lemma_services_in_any_order(a, b);
    a.to_multiset_ensures();
    b.to_multiset_ensures();
    if exists|i: int| 0 <= i < a.len() && (#[trigger] a[i]).uid >= cache::FIRST_APP_UID {
        let i = choose|i: int| 0 <= i < a.len() && (#[trigger] a[i]).uid >= cache::FIRST_APP_UID;
        assert(a.contains(a[i]));
        assert(a.to_multiset().count(a[i]) > 0);
        assert(b.to_multiset().count(a[i]) > 0);
        let k = choose|k: int| 0 <= k < b.len() && b[k] == a[i];
        assert(b[k].uid >= cache::FIRST_APP_UID);
    }
    if exists|i: int| 0 <= i < b.len() && (#[trigger] b[i]).uid >= cache::FIRST_APP_UID {
        let i = choose|i: int| 0 <= i < b.len() && (#[trigger] b[i]).uid >= cache::FIRST_APP_UID;
        assert(b.contains(b[i]));
        assert(b.to_multiset().count(b[i]) > 0);
        assert(a.to_multiset().count(b[i]) > 0);
        let k = choose|k: int| 0 <= k < a.len() && a[k] == b[i];
        assert(a[k].uid >= cache::FIRST_APP_UID);
    }
}

/// Whether a word states a UID, well formed or not.
pub open spec fn is_uid_word(word: Seq<char>) -> bool {
    word.len() >= 4 && word.take(4) == seq!['u', 'i', 'd', ':']
}

/// Whether a word states a well-formed package.
pub open spec fn is_package_word(word: Seq<char>) -> bool {
    &&& word.len() >= 8
    &&& word.take(8) == seq!['p', 'a', 'c', 'k', 'a', 'g', 'e', ':']
    &&& package_name::package_ok(word.skip(8), false)
}

proof fn lemma_word_kinds(word: Seq<char>)
    ensures
        is_package_word(word) <==> (text::strip_prefix(word, "package:"@) matches Some(value)
            && package_name::package_ok(value, false)),
        is_package_word(word) ==> text::strip_prefix(word, "package:"@) == Some(word.skip(8)),
        is_uid_word(word) <==> text::strip_prefix(word, "uid:"@) is Some,
        is_uid_word(word) ==> text::strip_prefix(word, "uid:"@) == Some(word.skip(4))
            && text::strip_prefix(word, "package:"@) is None,
{
    reveal_strlit("package:");
    reveal_strlit("uid:");
    assert("uid:"@ =~= seq!['u', 'i', 'd', ':']);
    assert("package:"@ =~= seq!['p', 'a', 'c', 'k', 'a', 'g', 'e', ':']);
    if word.len() >= 8 {
        assert(word.subrange(0, 8) =~= word.take(8));
    }
    if word.len() >= 4 {
        assert(word.subrange(0, 4) =~= word.take(4));
    }
    if is_uid_word(word) {
        assert(word.take(4)[0] == word[0]);
        text_laws::law_other_start_keeps_prefix(word, "package:"@, 0);
    }
}

proof fn lemma_last_package(words: Seq<Seq<char>>, i: int)
    requires
        -1 <= i < words.len(),
        i >= 0 ==> is_package_word(words[i]),
        forall|k: int| i < k < words.len() ==> !is_package_word(#[trigger] words[k]),
    ensures
        cache::token_scan(words).0 == if i >= 0 {
            Some(words[i].skip(8))
        } else {
            None
        },
    decreases words.len(),
{
    if words.len() > 0 {
        lemma_word_kinds(words.last());
        assert(words[words.len() - 1] == words.last());
        if i < words.len() - 1 {
            let front = words.drop_last();
            assert forall|k: int| i < k < front.len() implies !is_package_word(
                #[trigger] front[k],
            ) by {
                assert(front[k] == words[k]);
            }
            if i >= 0 {
                assert(front[i] == words[i]);
            }
            lemma_last_package(front, i);
        }
    }
}

proof fn lemma_last_uid(words: Seq<Seq<char>>, j: int)
    requires
        -1 <= j < words.len(),
        j >= 0 ==> is_uid_word(words[j]),
        forall|k: int| j < k < words.len() ==> !is_uid_word(#[trigger] words[k]),
    ensures
        cache::token_scan(words).1 == if j >= 0 {
            text::parse_unsigned(words[j].skip(4), u32::MAX as nat)
        } else {
            None
        },
    decreases words.len(),
{
    if words.len() > 0 {
        lemma_word_kinds(words.last());
        assert(words[words.len() - 1] == words.last());
        if j < words.len() - 1 {
            let front = words.drop_last();
            assert forall|k: int| j < k < front.len() implies !is_uid_word(
                #[trigger] front[k],
            ) by {
                assert(front[k] == words[k]);
            }
            if j >= 0 {
                assert(front[j] == words[j]);
            }
            lemma_last_uid(front, j);
        }
    }
}

/// Of any line the last word with a well-formed package and the last word with a UID
/// decide, wherever they stand: the line states their entry, or none if that UID is
/// not the number of a `u32`.
pub proof fn law_last_words_decide(line: Seq<char>, i: int, j: int)
    requires
        0 <= i < text::words(line).len(),
        is_package_word(text::words(line)[i]),
        forall|k: int|
            i < k < text::words(line).len() ==> !is_package_word(#[trigger] text::words(line)[k]),
        0 <= j < text::words(line).len(),
        is_uid_word(text::words(line)[j]),
        forall|k: int|
            j < k < text::words(line).len() ==> !is_uid_word(#[trigger] text::words(line)[k]),
    ensures
        cache::line_entry(line) == match text::parse_unsigned(
            text::words(line)[j].skip(4),
            u32::MAX as nat,
        ) {
            Some(uid) => Some(
                EntryModel {
                    package: text::words(line)[i].skip(8),
                    uid: uid as u32,
                    base_apk_path: None,
                },
            ),
            None => None,
        },
{
    lemma_last_package(text::words(line), i);
    lemma_last_uid(text::words(line), j);
}

/// A line without a word with a well-formed package, or without one with a UID, states
/// no entry.
pub proof fn law_both_words_are_needed(line: Seq<char>)
    requires
        (forall|k: int|
            0 <= k < text::words(line).len() ==> !is_package_word(#[trigger] text::words(line)[k]))
            || (forall|k: int|
            0 <= k < text::words(line).len() ==> !is_uid_word(#[trigger] text::words(line)[k])),
    ensures
        cache::line_entry(line) is None,
{
    let words = text::words(line);
    if forall|k: int| 0 <= k < words.len() ==> !is_package_word(#[trigger] words[k]) {
        lemma_last_package(words, -1);
    } else {
        lemma_last_uid(words, -1);
    }
}

} // verus!
