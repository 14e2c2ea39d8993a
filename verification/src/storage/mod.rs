//! The relational store's side: connection addresses and the values it keeps.

use vstd::prelude::*;
use crate::text::{chars_of, remove_all, remove_all_str};

verus! {

/// `s` begins with `p`.
pub open spec fn starts_with(s: Seq<char>, p: Seq<char>) -> bool {
    p.len() <= s.len() && s.take(p.len() as int) == p
}

/// `s` begins with `p`.
pub fn has_prefix(s: &str, p: &str) -> (b: bool)
    ensures
        b == starts_with(s@, p@),
{
    let sv = chars_of(s);
    let pv = chars_of(p);
    if pv.len() > sv.len() {
        return false;
    }
    let mut i: usize = 0;
    while i < pv.len()
        invariant
            sv@ == s@,
            pv@ == p@,
            pv.len() <= sv.len(),
            i <= pv.len(),
            forall|j: int| 0 <= j < i ==> sv@[j] == pv@[j],
        decreases pv.len() - i,
    {
        if sv[i] != pv[i] {
            assert(sv@.take(pv.len() as int)[i as int] != pv@[i as int]);
            return false;
        }
        i = i + 1;
    }
    assert(sv@.take(pv.len() as int) =~= pv@);
    true
}

/// The address used to open the database: `url` itself when it has the
/// `sqlite:` scheme, otherwise `url` under `sqlite://`.
pub fn sqlite_url(url: &str) -> (r: String)
    ensures
        r@ == if starts_with(url@, "sqlite:"@) {
            url@
        } else {
            "sqlite://"@ + url@
        },
{
    if !has_prefix(url, "sqlite:") {
        let mut r = String::from_str("sqlite://");
        r.append(url);
        r
    } else {
        String::from_str(url)
    }
}

/// The title stored for an incident.
pub fn incident_title(symptom: &str, affected: &str) -> (r: String)
    ensures
        r@ == "Incident: "@ + symptom@ + " on "@ + affected@,
{
    let mut r = String::from_str("Incident: ");
    r.append(symptom);
    r.append(" on ");
    r.append(affected);
    r
}

/// The id of a service node: the unit name with every `.service` removed.
pub fn service_node_id(name: &str) -> (r: String)
    ensures
        r@ == remove_all(name@, ".service"@),
{
    remove_all_str(name, ".service")
}

} // verus!
