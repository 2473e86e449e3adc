//! The foreground application by the activity manager's own account.
use vstd::prelude::*;

use crate::ordered::OrdSet;
use crate::services::foreground::resolver::ForegroundResolveReport;
use crate::{ordered, path, services::foreground::resolver, text, text_laws};

verus! {

/// The package of the top activity that an activity dump names: what stands
/// before the first slash between the first `topActivity=ComponentInfo{` and the
/// closing brace, if something stands on both sides of the slash.
pub open spec fn top_package(dump: Seq<char>) -> Option<Seq<char>> {
    match text::split_once(dump, "topActivity=ComponentInfo{"@) {
        None => None,
        Some((_, after)) => match text::split_once(after, "}"@) {
            None => None,
            Some((component, _)) => match text::split_once(component, "/"@) {
                None => None,
                Some((package, activity)) => if package.len() == 0 || activity.len() == 0 {
                    None
                } else {
                    Some(package)
                },
            },
        },
    }
}

/// The package of the top activity that the text of a dump names.
pub fn top_activity_package(dump: &str) -> (r: Option<String>)
    ensures
        match r {
            Some(package) => top_package(dump@) == Some(package@),
            None => top_package(dump@) is None,
        },
{
    let chars = text::chars_of(dump);
    match text::split_once_at(&chars, "topActivity=ComponentInfo{") {
        None => None,
        Some((_, after)) => match text::split_once_at(&after, "}") {
            None => None,
            Some((component, _)) => match text::split_once_at(&component, "/") {
                None => None,
                Some((package, activity)) => {
                    if package.len() == 0 || activity.len() == 0 {
                        None
                    } else {
                        Some(text::string_of(&package))
                    }
                },
            },
        },
    }
}

/// The package of the top activity that the bytes of a dump name.
pub fn parse_top_activity_package(stdout: &[u8]) -> (r: Option<String>)
    ensures
        match r {
            Some(package) => top_package(path::text_in(stdout@)) == Some(package@),
            None => top_package(path::text_in(stdout@)) is None,
        },
{
    let dump = path::read_text(stdout);
    top_activity_package(dump.as_str())
}

/// The report on the top package of a dump.
pub open spec fn activity_report(
    top: Option<Seq<char>>,
    blocked: Set<Seq<char>>,
) -> resolver::ReportModel {
    match top {
        None => resolver::ReportModel::unknown("activity"@),
        Some(package) => if blocked.contains(package) {
            resolver::ReportModel {
                package: None,
                lines: seq!["source=activity package="@ + package + " reason=blocked"@],
            }
        } else {
            resolver::ReportModel {
                package: Some(package),
                lines: seq!["source=activity package="@ + package + " reason=resolved"@],
            }
        },
    }
}

fn activity_line(package: &String, reason: &str) -> (r: Vec<String>)
    ensures
        ordered::strings(r@) == seq!["source=activity package="@ + package@ + reason@],
{
    let mut line = "source=activity package=".to_owned();
    text::push_str(&mut line, package.as_str());
    text::push_str(&mut line, reason);
    resolver::one_line(line)
}

/// The report on what the activity manager names, given the packages that
/// cannot be in the foreground.
pub fn resolve_activity_stdout(stdout: &[u8], blocked_packages: &OrdSet<String>) -> (r:
    ForegroundResolveReport)
    ensures
        r@ == activity_report(top_package(path::text_in(stdout@)), blocked_packages@),
{
    match parse_top_activity_package(stdout) {
        None => ForegroundResolveReport::unknown("activity"),
        Some(package) => {
            if blocked_packages.contains(&package) {
                ForegroundResolveReport {
                    package: None,
                    lines: activity_line(&package, " reason=blocked"),
                }
            } else {
                ForegroundResolveReport {
                    lines: activity_line(&package, " reason=resolved"),
                    package: Some(package),
                }
            }
        },
    }
}

/// A marker stands first behind a text that lacks it: its brace stands at its end
/// alone, so no marker starts in that text and ends in the one behind it.
proof fn lemma_first_marker(before: Seq<char>, after: Seq<char>)
    requires
        text_laws::lacks_text(before, "topActivity=ComponentInfo{"@),
    ensures
        text::split_once(
            before + "topActivity=ComponentInfo{"@ + after,
            "topActivity=ComponentInfo{"@,
        ) == Some((before, after)),
{
    reveal_strlit("topActivity=ComponentInfo{");
    let marker = "topActivity=ComponentInfo{"@;
    let n = marker.len() as int;
    let s = before + marker + after;
    assert forall|k: int| 0 <= k < before.len() implies !#[trigger] text::occurs_at(
        s,
        marker,
        k,
    ) by {
        if text::occurs_at(s, marker, k) {
            let found = s.subrange(k, k + n);
            assert(found[n - 1] == s[k + n - 1]);
            if k + n <= before.len() {
                assert(before.subrange(k, k + n) =~= found);
            } else {
                assert(s[k + n - 1] == marker[k + n - 1 - before.len()]);
            }
        }
    }
    text_laws::law_cut_at_first_place(before, marker, after);
}

/// The first marker of a dump decides: the package behind it is the top package,
/// whatever stands behind the component that it starts.
pub proof fn law_first_component_is_top(
    before: Seq<char>,
    package: Seq<char>,
    activity: Seq<char>,
    after: Seq<char>,
)
    requires
        text_laws::lacks_text(before, "topActivity=ComponentInfo{"@),
        package.len() > 0,
        text_laws::lacks(package, '/'),
        text_laws::lacks(package, '}'),
        activity.len() > 0,
        text_laws::lacks(activity, '}'),
    ensures
        top_package(
            before + "topActivity=ComponentInfo{"@ + package + seq!['/'] + activity + seq!['}']
                + after,
        ) == Some(package),
{
    reveal_strlit("}");
    reveal_strlit("/");
    assert("}"@ =~= seq!['}']);
    assert("/"@ =~= seq!['/']);
    let marker = "topActivity=ComponentInfo{"@;
    let component = package + seq!['/'] + activity;
    let rest = component + seq!['}'] + after;
    assert(before + marker + package + seq!['/'] + activity + seq!['}'] + after =~= before
        + marker + rest);
    lemma_first_marker(before, rest);
    assert forall|i: int| 0 <= i < component.len() implies #[trigger] component[i] != '}' by {
        if i < package.len() {
            assert(component[i] == package[i]);
        } else if i > package.len() {
            assert(component[i] == activity[i - package.len() - 1]);
        }
    }
    text_laws::law_cut_at_first_char(component, '}', after);
    text_laws::law_cut_at_first_char(package, '/', activity);
}

/// A dump names no package where it has no marker, where the component behind the
/// first one is not closed, or where that has no slash or nothing on one side of
/// its first slash.
pub proof fn law_no_component_no_top(before: Seq<char>, component: Seq<char>, after: Seq<char>)
    requires
        text_laws::lacks_text(before, "topActivity=ComponentInfo{"@),
        text_laws::lacks(component, '}'),
    ensures
        top_package(before) is None,
        top_package(before + "topActivity=ComponentInfo{"@ + component) is None,
        text_laws::lacks(component, '/') || component[0] == '/' || text_laws::lacks(
            component.drop_last(),
            '/',
        ) ==> top_package(
            before + "topActivity=ComponentInfo{"@ + component + seq!['}'] + after,
        ) is None,
{
    reveal_strlit("}");
    reveal_strlit("/");
    assert("}"@ =~= seq!['}']);
    assert("/"@ =~= seq!['/']);
    let marker = "topActivity=ComponentInfo{"@;
    text_laws::law_holds_where_it_stands(before, marker);
    text::lemma_find(before, marker);
    lemma_first_marker(before, component);
    text_laws::law_no_cut_without_char(component, '}');
    let rest = component + seq!['}'] + after;
    assert(before + marker + component + seq!['}'] + after =~= before + marker + rest);
    lemma_first_marker(before, rest);
    text_laws::law_cut_at_first_char(component, '}', after);
    if text_laws::lacks(component, '/') {
        text_laws::law_no_cut_without_char(component, '/');
    } else if component[0] == '/' {
        let empty = Seq::<char>::empty();
        assert(component =~= empty + seq!['/'] + component.skip(1));
        text_laws::law_cut_at_first_char(empty, '/', component.skip(1));
    } else if text_laws::lacks(component.drop_last(), '/') {
        let front = component.drop_last();
        let i = choose|i: int| 0 <= i < component.len() && component[i] == '/';
        assert(i == component.len() - 1) by {
            if i < component.len() - 1 {
                assert(front[i] == component[i]);
            }
        }
        assert(component =~= front + seq!['/'] + Seq::<char>::empty());
        text_laws::law_cut_at_first_char(front, '/', Seq::empty());
    }
}

/// A report on a dump names the top package exactly if there is one that is not
/// blocked, and its one line says which package it was and what became of it.
pub proof fn law_report_names_top(package: Seq<char>, blocked: Set<Seq<char>>)
    ensures
        activity_report(None, blocked).package is None,
        activity_report(None, blocked).lines == seq!["source=activity reason=unknown"@],
        activity_report(Some(package), blocked).package == if blocked.contains(package) {
            None
        } else {
            Some(package)
        },
        blocked.contains(package) ==> activity_report(Some(package), blocked).lines == seq![
            "source=activity package="@ + package + " reason=blocked"@,
        ],
        !blocked.contains(package) ==> activity_report(Some(package), blocked).lines == seq![
            "source=activity package="@ + package + " reason=resolved"@,
        ],
{
    reveal_strlit("source=");
    reveal_strlit("activity");
    reveal_strlit(" reason=unknown");
    reveal_strlit("source=activity reason=unknown");
    assert("source="@ + "activity"@ + " reason=unknown"@ =~= "source=activity reason=unknown"@);
}

} // verus!
