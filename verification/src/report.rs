//! The alert that is shown for a driver found in the vulnerability database.

use vstd::prelude::*;
use crate::digest::DriverHash;
use crate::text::{concat_str, join, seq_join, strings_view};
use crate::vuln::{lookup_in, match_risk, sample_display_name, sample_publisher, MatchView, VulnDb, VulnMatch};

verus! {

/// The line of exclamation marks that frames the alert.
pub open spec fn alert_rule() -> Seq<char> {
    "!!!!!!!!!!!!!!!!!!!!!!!!!!!!!!!!!!!!!!!!!!!!!!!!!!!!!!!!!!!!!!!!!!!!!!!!!!!!"@
}

/// The title line of the alert.
pub open spec fn alert_title() -> Seq<char> {
    "!!  VULNERABLE DRIVER DETECTED                                           !!"@
}

/// The advice at the end of the alert.
pub open spec fn alert_remediation() -> Seq<char> {
    "  REMEDIATION    : Remove or quarantine the driver file. Block via HVCI/GPO."@
}

/// One labelled line, present only when its value is not empty.
pub open spec fn optional_line(label: Seq<char>, value: Seq<char>) -> Seq<Seq<char>> {
    if value.len() != 0 {
        seq![label + value]
    } else {
        Seq::empty()
    }
}

/// One labelled line for a list, present only when the list is not empty.
pub open spec fn optional_list_line(label: Seq<char>, values: Seq<Seq<char>>) -> Seq<Seq<char>> {
    if values.len() != 0 {
        seq![label + seq_join(values, ", "@)]
    } else {
        Seq::empty()
    }
}

/// The lines of the alert for a driver at `resolved` with digest text `sha256`
/// (`?` when there is none) that matches `m`: a blank line, the framed title, the
/// sample's name, product, publisher, risk, the file path and digest, the tags,
/// description, file version, MITRE technique and references when they are not empty,
/// the remediation advice, the closing rule and a blank line.
pub open spec fn alert_lines_of(resolved: Seq<char>, sha256: Option<Seq<char>>, m: MatchView) -> Seq<Seq<char>> {
    let digest = match sha256 {
        Some(h) => h,
        None => "?"@,
    };
    seq![
        Seq::<char>::empty(),
        alert_rule(),
        alert_title(),
        alert_rule(),
        "  Driver Name    : "@ + sample_display_name(m.sample),
        "  Product        : "@ + m.sample.product,
        "  Publisher      : "@ + sample_publisher(m.sample),
        "  Risk Level     : "@ + match_risk(m),
        "  File Path      : "@ + resolved,
        "  SHA256         : "@ + digest,
    ] + optional_list_line("  Tags           : "@, m.tags) + optional_line("  Description    : "@, m.sample.description)
        + optional_line("  File Version   : "@, m.sample.file_version) + optional_line("  MITRE          : "@, m.mitre)
        + optional_list_line("  References     : "@, m.resources) + seq![
        alert_remediation(),
        alert_rule(),
        Seq::<char>::empty(),
    ]
}

fn push_optional_line(lines: &mut Vec<String>, label: &str, value: &String)
    ensures
        strings_view(final(lines)@) == strings_view(old(lines)@) + optional_line(label@, value@),
{
    if !value.as_str().is_empty() {
        lines.push(concat_str(label, value.as_str()));
        assert(strings_view(lines@) =~= strings_view(old(lines)@) + optional_line(label@, value@));
    } else {
        assert(strings_view(lines@) =~= strings_view(old(lines)@) + optional_line(label@, value@));
    }
}

fn push_optional_list_line(lines: &mut Vec<String>, label: &str, values: &Vec<String>)
    ensures
        strings_view(final(lines)@) == strings_view(old(lines)@) + optional_list_line(
            label@,
            strings_view(values@),
        ),
{
    if values.len() != 0 {
        let joined = join(values, ", ");
        lines.push(concat_str(label, joined.as_str()));
        assert(strings_view(lines@) =~= strings_view(old(lines)@) + optional_list_line(
            label@,
            strings_view(values@),
        ));
    } else {
        assert(strings_view(lines@) =~= strings_view(old(lines)@) + optional_list_line(
            label@,
            strings_view(values@),
        ));
    }
}

fn push_line(lines: &mut Vec<String>, line: String)
    ensures
        strings_view(final(lines)@) == strings_view(old(lines)@).push(line@),
{
    lines.push(line);
    assert(strings_view(lines@) =~= strings_view(old(lines)@).push(line@));
}

/// The lines of the alert for a hashed driver that the database matched.
pub fn vuln_alert_lines(hash_result: &DriverHash, vuln: &VulnMatch) -> (r: Vec<String>)
    ensures
        strings_view(r@) == alert_lines_of(
            hash_result.resolved_path@,
            match hash_result.sha256 {
                Some(h) => Some(h@),
                None => None,
            },
            vuln@,
        ),
{
    let name = vuln.sample.display_name();
    let publisher = vuln.sample.publisher();
    let risk = vuln.risk_display();
    let digest: &str = match &hash_result.sha256 {
        Some(h) => h.as_str(),
        None => "?",
    };
    let mut lines: Vec<String> = Vec::new();
    push_line(&mut lines, String::new());
    push_line(&mut lines, String::from_str("!!!!!!!!!!!!!!!!!!!!!!!!!!!!!!!!!!!!!!!!!!!!!!!!!!!!!!!!!!!!!!!!!!!!!!!!!!!!"));
    push_line(&mut lines, String::from_str("!!  VULNERABLE DRIVER DETECTED                                           !!"));
    push_line(&mut lines, String::from_str("!!!!!!!!!!!!!!!!!!!!!!!!!!!!!!!!!!!!!!!!!!!!!!!!!!!!!!!!!!!!!!!!!!!!!!!!!!!!"));
    push_line(&mut lines, concat_str("  Driver Name    : ", name.as_str()));
    push_line(&mut lines, concat_str("  Product        : ", vuln.sample.product.as_str()));
    push_line(&mut lines, concat_str("  Publisher      : ", publisher));
    push_line(&mut lines, concat_str("  Risk Level     : ", risk.as_str()));
    push_line(&mut lines, concat_str("  File Path      : ", hash_result.resolved_path.as_str()));
    push_line(&mut lines, concat_str("  SHA256         : ", digest));
    push_optional_list_line(&mut lines, "  Tags           : ", &vuln.driver_tags);
    push_optional_line(&mut lines, "  Description    : ", &vuln.sample.description);
    push_optional_line(&mut lines, "  File Version   : ", &vuln.sample.file_version);
    push_optional_line(&mut lines, "  MITRE          : ", &vuln.driver_mitre);
    push_optional_list_line(&mut lines, "  References     : ", &vuln.driver_resources);
    push_line(&mut lines, String::from_str("  REMEDIATION    : Remove or quarantine the driver file. Block via HVCI/GPO."));
    push_line(&mut lines, String::from_str("!!!!!!!!!!!!!!!!!!!!!!!!!!!!!!!!!!!!!!!!!!!!!!!!!!!!!!!!!!!!!!!!!!!!!!!!!!!!"));
    push_line(&mut lines, String::new());
    assert(strings_view(lines@) =~= alert_lines_of(
        hash_result.resolved_path@,
        match hash_result.sha256 {
            Some(h) => Some(h@),
            None => None,
        },
        vuln@,
    ));
    lines
}

/// What the database holds for a hashed driver: nothing when the driver has no digest,
/// else the result of looking its digest up.
pub fn match_driver<'a>(db: &'a VulnDb, hash_result: &DriverHash) -> (r: Option<&'a VulnMatch>)
    ensures
        match hash_result.sha256 {
            Some(h) => match r {
                Some(m) => lookup_in(db@, h@) == Some(m@),
                None => lookup_in(db@, h@) is None,
            },
            None => r is None,
        },
{
    match &hash_result.sha256 {
        Some(h) => db.lookup(h.as_str()),
        None => None,
    }
}


/// Law: the alert's lines, one by one. After a blank line and the framed title come the
/// sample's display name, the sample's product, its publisher, the match's risk, the
/// file path and the digest text (`?` when there is none), each after its label; then,
/// each only when not empty and in this order, the driver's tags, the sample's
/// description, the sample's file version, the driver's MITRE technique and the
/// driver's references; then the remediation advice, the closing rule and a blank line.
pub proof fn law_alert_lines(resolved: Seq<char>, sha256: Option<Seq<char>>, m: MatchView)
    ensures
        ({
            let l = alert_lines_of(resolved, sha256, m);
            let t: int = if m.tags.len() != 0 { 1 } else { 0 };
            let d: int = if m.sample.description.len() != 0 { 1 } else { 0 };
            let f: int = if m.sample.file_version.len() != 0 { 1 } else { 0 };
            let x: int = if m.mitre.len() != 0 { 1 } else { 0 };
            let e: int = if m.resources.len() != 0 { 1 } else { 0 };
            let n: int = 10 + t + d + f + x + e;
            &&& l.len() == n + 3
            &&& l[0] == Seq::<char>::empty()
            &&& l[1] == "!!!!!!!!!!!!!!!!!!!!!!!!!!!!!!!!!!!!!!!!!!!!!!!!!!!!!!!!!!!!!!!!!!!!!!!!!!!!"@
            &&& l[2] == "!!  VULNERABLE DRIVER DETECTED                                           !!"@
            &&& l[3] == l[1]
            &&& l[4] == "  Driver Name    : "@ + sample_display_name(m.sample)
            &&& l[5] == "  Product        : "@ + m.sample.product
            &&& l[6] == "  Publisher      : "@ + sample_publisher(m.sample)
            &&& l[7] == "  Risk Level     : "@ + match_risk(m)
            &&& l[8] == "  File Path      : "@ + resolved
            &&& l[9] == "  SHA256         : "@ + match sha256 {
                Some(h) => h,
                None => "?"@,
            }
            &&& t == 1 ==> l[10] == "  Tags           : "@ + seq_join(m.tags, ", "@)
            &&& d == 1 ==> l[10 + t] == "  Description    : "@ + m.sample.description
            &&& f == 1 ==> l[10 + t + d] == "  File Version   : "@ + m.sample.file_version
            &&& x == 1 ==> l[10 + t + d + f] == "  MITRE          : "@ + m.mitre
            &&& e == 1 ==> l[10 + t + d + f + x] == "  References     : "@ + seq_join(m.resources, ", "@)
            &&& l[n] == "  REMEDIATION    : Remove or quarantine the driver file. Block via HVCI/GPO."@
            &&& l[n + 1] == l[1]
            &&& l[n + 2] == Seq::<char>::empty()
        }),
{
    let l = alert_lines_of(resolved, sha256, m);
    let head = seq![
        Seq::<char>::empty(),
        alert_rule(),
        alert_title(),
        alert_rule(),
        "  Driver Name    : "@ + sample_display_name(m.sample),
        "  Product        : "@ + m.sample.product,
        "  Publisher      : "@ + sample_publisher(m.sample),
        "  Risk Level     : "@ + match_risk(m),
        "  File Path      : "@ + resolved,
        "  SHA256         : "@ + match sha256 {
            Some(h) => h,
            None => "?"@,
        },
    ];
    let o1 = optional_list_line("  Tags           : "@, m.tags);
    let o2 = optional_line("  Description    : "@, m.sample.description);
    let o3 = optional_line("  File Version   : "@, m.sample.file_version);
    let o4 = optional_line("  MITRE          : "@, m.mitre);
    let o5 = optional_list_line("  References     : "@, m.resources);
    let tail = seq![alert_remediation(), alert_rule(), Seq::<char>::empty()];
    assert(l == head + o1 + o2 + o3 + o4 + o5 + tail);
    let t = o1.len() as int;
    let d = o2.len() as int;
    let f = o3.len() as int;
    let x = o4.len() as int;
    let e = o5.len() as int;
    assert(l[5] == head[5]);
    assert(l[4] == head[4]);
    assert(l[9] == head[9]);
    if t == 1 {
        assert(l[10] == o1[0]);
    }
    if d == 1 {
        assert(l[10 + t] == o2[0]);
    }
    if f == 1 {
        assert(l[10 + t + d] == o3[0]);
    }
    if x == 1 {
        assert(l[10 + t + d + f] == o4[0]);
    }
    if e == 1 {
        assert(l[10 + t + d + f + x] == o5[0]);
    }
    let n = 10 + t + d + f + x + e;
    assert(l[n] == tail[0]);
    assert(l[n + 1] == tail[1]);
    assert(l[n + 2] == tail[2]);
}

} // verus!
