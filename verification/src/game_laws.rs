//! What game lists and the rows of scaled down games say.
use vstd::prelude::*;

use crate::game::DownscaleModel;
use crate::{game, package_name, path, text, text_laws};

verus! {

// ---------------------------------------------------------------------------
// Game lists
// ---------------------------------------------------------------------------

proof fn lemma_first_game(first: Seq<char>, lines: Seq<Seq<char>>)
    ensures
        game::games_in(seq![first] + lines) == if game::names_game(text::trim(first)) {
            game::games_in(lines).insert(text::trim(first))
        } else {
            game::games_in(lines)
        },
{
    let all = seq![first] + lines;
    let name = text::trim(first);
    let want = if game::names_game(name) {
        game::games_in(lines).insert(name)
    } else {
        game::games_in(lines)
    };
    assert forall|p: Seq<char>| game::games_in(all).contains(p) <==> want.contains(p) by {
        if game::games_in(all).contains(p) {
            let i = choose|i: int| 0 <= i < all.len() && text::trim(#[trigger] all[i]) == p;
            if i > 0 {
                assert(lines[i - 1] == all[i]);
            }
        }
        if game::games_in(lines).contains(p) {
            let i = choose|i: int| 0 <= i < lines.len() && text::trim(#[trigger] lines[i]) == p;
            assert(all[i + 1] == lines[i]);
        }
        assert(all[0] == first);
    }
    assert(game::games_in(all) =~= want);
}

/// A line with a package name, and white space on either side of it, adds that
/// package to the games that the rest of the list names.
pub proof fn law_package_line_is_a_game(
    before: Seq<char>,
    package: Seq<char>,
    after: Seq<char>,
    rest: Seq<char>,
)
    requires
        text_laws::blank(before),
        text_laws::blank(after),
        text_laws::lacks(before, '\n'),
        text_laws::lacks(after, '\n'),
        after.len() == 0 || after.last() != '\r',
        package_name::package_ok(package, true),
    ensures
        game::games_in(text::lines(before + package + after + seq!['\n'] + rest))
            == game::games_in(text::lines(rest)).insert(package),
{
    text_laws::law_package_characters(package, true);
    let line = before + package + after;
    assert forall|i: int| 0 <= i < line.len() implies #[trigger] line[i] != '\n' by {
        if i < before.len() {
            assert(line[i] == before[i]);
        } else if i < before.len() + package.len() {
            assert(line[i] == package[i - before.len()]);
        } else {
            assert(line[i] == after[i - before.len() - package.len()]);
        }
    }
    if after.len() == 0 {
        assert(line.last() == package[package.len() - 1]);
    } else {
        assert(line.last() == after.last());
    }
    assert(package[0] == package[0]);
    assert(package.last() == package[package.len() - 1]);
    text_laws::law_first_line(line, rest);
    text_laws::law_trim_takes_space_off(before, package, after);
    lemma_first_game(line, text::lines(rest));
}

/// A line that is no package name, such as a comment or a blank one, adds nothing.
pub proof fn law_other_line_is_no_game(line: Seq<char>, rest: Seq<char>)
    requires
        text_laws::lacks(line, '\n'),
        line.len() == 0 || line.last() != '\r',
        !package_name::package_ok(text::trim(line), true),
    ensures
        game::games_in(text::lines(line + seq!['\n'] + rest)) == game::games_in(
            text::lines(rest),
        ),
        game::games_in(Seq::empty()) == Set::<Seq<char>>::empty(),
{
    text_laws::law_first_line(line, rest);
    lemma_first_game(line, text::lines(rest));
    assert(game::games_in(Seq::empty()) =~= Set::<Seq<char>>::empty());
}

// ---------------------------------------------------------------------------
// Rows
// ---------------------------------------------------------------------------

/// A text is a hash exactly if it has at least one character and all are
/// hexadecimal digits, in either case.
pub proof fn law_hash_characters(s: Seq<char>)
    ensures
        game::hex_text(s) <==> s.len() > 0 && forall|i: int|
            0 <= i < s.len() ==> ({
                let c = #[trigger] s[i];
                '0' <= c <= '9' || 'a' <= c <= 'f' || 'A' <= c <= 'F'
            }),
{
    assert forall|i: int| 0 <= i < s.len() implies text::hex_digit(s[i]) == ({
        let c = #[trigger] s[i];
        '0' <= c <= '9' || 'a' <= c <= 'f' || 'A' <= c <= 'F'
    }) by {}
}

proof fn lemma_columns(package: Seq<char>, hash: Seq<char>)
    requires
        package_name::package_ok(package, true),
        game::hex_text(hash),
    ensures
        text_laws::lacks(package, '\t'),
        text_laws::lacks(hash, '\t'),
{
    text_laws::law_package_characters(package, true);
    assert forall|i: int| 0 <= i < hash.len() implies #[trigger] hash[i] != '\t' by {
        assert(text::hex_digit(hash[i]));
    }
}

/// A row of a package, a hash and a time, with tabs between them, states their entry.
/// So does one of the older form, with the name of a mode behind the package. With
/// anything else there it states none.
pub proof fn law_row_states_entry(
    package: Seq<char>,
    mode: Seq<char>,
    hash: Seq<char>,
    applied_ms: u64,
)
    requires
        package_name::package_ok(package, true),
        game::hex_text(hash),
        text_laws::lacks(mode, '\t'),
    ensures
        game::entry_of_row(
            package + seq!['\t'] + (hash + seq!['\t'] + text::decimal(applied_ms as nat)),
        ) == Some(DownscaleModel { package, overlay_hash: hash, applied_ms }),
        game::entry_of_row(
            package + seq!['\t'] + (mode + seq!['\t'] + (hash + seq!['\t'] + text::decimal(
                applied_ms as nat,
            ))),
        ) == if mode == "standard"@ || mode == "performance"@ || mode == "battery"@ {
            Some(DownscaleModel { package, overlay_hash: hash, applied_ms })
        } else {
            None
        },
{
    let time = text::decimal(applied_ms as nat);
    lemma_columns(package, hash);
    text::lemma_decimal(applied_ms as nat);
    text::law_decimal_reads_back(applied_ms as nat, u64::MAX as nat);
    assert forall|i: int| 0 <= i < time.len() implies #[trigger] time[i] != '\t' by {
        assert(text::digit(time[i]));
    }
    text_laws::law_one_piece(time, '\t');
    let tail = hash + seq!['\t'] + time;
    text_laws::law_first_piece(hash, '\t', time);
    text_laws::law_first_piece(package, '\t', tail);
    assert(text::split(package + seq!['\t'] + tail, '\t') =~= seq![package, hash, time]);
    text_laws::law_first_piece(mode, '\t', tail);
    text_laws::law_first_piece(package, '\t', mode + seq!['\t'] + tail);
    assert(text::split(package + seq!['\t'] + (mode + seq!['\t'] + tail), '\t') =~= seq![
        package,
        mode,
        hash,
        time,
    ]);
}

/// Three columns state no entry unless the first is a package name, the second a
/// hash and the third the decimal of a time; and neither do one or two columns.
pub proof fn law_bad_row_states_nothing(
    package: Seq<char>,
    hash: Seq<char>,
    time: Seq<char>,
)
    requires
        text_laws::lacks(package, '\t'),
        text_laws::lacks(hash, '\t'),
        text_laws::lacks(time, '\t'),
    ensures
        !package_name::package_ok(package, true) || !game::hex_text(hash) || text::parse_unsigned(
            time,
            u64::MAX as nat,
        ) is None ==> game::entry_of_row(
            package + seq!['\t'] + (hash + seq!['\t'] + time),
        ) is None,
        game::entry_of_row(package + seq!['\t'] + hash) is None,
        game::entry_of_row(package) is None,
{
    text_laws::law_one_piece(package, '\t');
    text_laws::law_one_piece(hash, '\t');
    text_laws::law_one_piece(time, '\t');
    text_laws::law_first_piece(hash, '\t', time);
    text_laws::law_first_piece(package, '\t', hash);
    text_laws::law_first_piece(package, '\t', hash + seq!['\t'] + time);
    assert(text::split(package + seq!['\t'] + (hash + seq!['\t'] + time), '\t') =~= seq![
        package,
        hash,
        time,
    ]);
}

/// A later row of a package takes the place of an earlier one; a row that states no
/// entry changes nothing.
pub proof fn law_last_row_counts(rows: Seq<Seq<char>>, row: Seq<char>)
    ensures
        game::entries_of(Seq::empty()) == Map::<Seq<char>, DownscaleModel>::empty(),
        game::entries_of(rows.push(row)) == match game::entry_of_row(row) {
            Some(entry) => game::entries_of(rows).insert(entry.package, entry),
            None => game::entries_of(rows),
        },
{
    assert(rows.push(row).drop_last() =~= rows);
    assert(rows.push(row).last() == row);
}

/// An entry is written as its package, its hash and the decimal of its time, with
/// tabs between them, and each entry is a line of its own, in the given order.
pub proof fn law_entries_are_written_as_rows(
    entries: Map<Seq<char>, DownscaleModel>,
    packages: Seq<Seq<char>>,
    package: Seq<char>,
)
    ensures
        game::rows_text(entries, packages.push(package)) == game::rows_text(entries, packages)
            + entries[package].package + seq!['\t'] + entries[package].overlay_hash + seq!['\t']
            + text::decimal(entries[package].applied_ms as nat) + seq!['\n'],
        game::rows_text(entries, Seq::empty()).len() == 0,
{
    reveal_strlit("\t");
    reveal_strlit("\n");
    assert("\t"@ =~= seq!['\t']);
    assert("\n"@ =~= seq!['\n']);
    assert(packages.push(package).drop_last() =~= packages);
    assert(packages.push(package).last() == package);
    let entry = entries[package];
    let time = text::decimal(entry.applied_ms as nat);
    let start = game::rows_text(entries, packages);
    assert(start + (entry.package + seq!['\t'] + entry.overlay_hash + seq!['\t'] + time)
        + seq!['\n'] =~= start + entry.package + seq!['\t'] + entry.overlay_hash + seq!['\t']
        + time + seq!['\n']);
}

// ---------------------------------------------------------------------------
// Temporary files
// ---------------------------------------------------------------------------

proof fn lemma_no_dot(n: nat)
    ensures
        text_laws::lacks(text::decimal(n), '.'),
{
    text::lemma_decimal(n);
    let s = text::decimal(n);
    assert forall|i: int| 0 <= i < s.len() implies #[trigger] s[i] != '.' by {
        assert(text::digit(s[i]));
    }
}

/// The temporary file of a process at a time has a name of its own: it is hidden,
/// longer than the name of the file whose place it takes, and another process or
/// another time has another.
pub proof fn law_temporary_names_differ(
    p: Seq<u8>,
    process_id: u32,
    nanos: u128,
    other_id: u32,
    other_nanos: u128,
)
    ensures
        game::temporary_name(p, process_id, nanos).len() > 0,
        game::temporary_name(p, process_id, nanos)[0] == '.',
        path::file_name(p) matches Some(name) ==> vstd::utf8::valid_utf8(name)
            ==> game::temporary_name(p, process_id, nanos).len() > vstd::utf8::decode_utf8(
            name,
        ).len() && game::temporary_name(p, process_id, nanos).subrange(
            1,
            1int + vstd::utf8::decode_utf8(name).len(),
        ) == vstd::utf8::decode_utf8(name),
        game::temporary_name(p, process_id, nanos) == game::temporary_name(
            p,
            other_id,
            other_nanos,
        ) ==> process_id == other_id && nanos == other_nanos,
{
    reveal_strlit(".");
    reveal_strlit(".tmp.");
    assert("."@ =~= seq!['.']);
    let name = match path::file_name(p) {
        Some(name) if vstd::utf8::valid_utf8(name) => vstd::utf8::decode_utf8(name),
        _ => "game_state.tsv"@,
    };
    let start = "."@ + name + ".tmp."@;
    let a = text::decimal(process_id as nat);
    let b = text::decimal(nanos as nat);
    let c = text::decimal(other_id as nat);
    let d = text::decimal(other_nanos as nat);
    let one = game::temporary_name(p, process_id, nanos);
    let two = game::temporary_name(p, other_id, other_nanos);
    assert(one =~= start + (a + seq!['.'] + b));
    assert(two =~= start + (c + seq!['.'] + d));
    assert(one.subrange(1, 1int + name.len()) =~= name);
    if one == two {
        assert(one.skip(start.len() as int) =~= a + seq!['.'] + b);
        assert(two.skip(start.len() as int) =~= c + seq!['.'] + d);
        lemma_no_dot(process_id as nat);
        lemma_no_dot(other_id as nat);
        text_laws::law_cut_at_first_char(a, '.', b);
        text_laws::law_cut_at_first_char(c, '.', d);
        text::lemma_decimal(process_id as nat);
        text::lemma_decimal(other_id as nat);
        text::lemma_decimal(nanos as nat);
        text::lemma_decimal(other_nanos as nat);
    }
}

/// A row is read by its columns: three are package, hash and time, of four the second
/// is the name of a mode, and any other number of columns states nothing.
pub proof fn law_row_is_read_by_columns(row: Seq<char>)
    ensures
        ({
            let columns = text::split(row, '\t');
            let (hash, time) = if columns.len() == 4 {
                (columns[2], columns[3])
            } else {
                (columns[1], columns[2])
            };
            let modes = columns[1] == "standard"@ || columns[1] == "performance"@ || columns[1]
                == "battery"@;
            game::entry_of_row(row) == if (columns.len() == 3 || (columns.len() == 4 && modes))
                && package_name::package_ok(columns[0], true) && game::hex_text(hash)
                && text::parse_unsigned(time, u64::MAX as nat) is Some {
                Some(
                    DownscaleModel {
                        package: columns[0],
                        overlay_hash: hash,
                        applied_ms: text::parse_unsigned(time, u64::MAX as nat)->0 as u64,
                    },
                )
            } else {
                None
            }
        }),
{
}

} // verus!
