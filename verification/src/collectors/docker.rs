//! Containers, as `docker ps -a --format '{{json .}}'` prints them: one JSON
//! object per line.

use vstd::prelude::*;
use crate::models::DockerContainer;
use crate::text::{chars_of, lines, lines_of, trim, trim_str, views};

verus! {

/// The string members of the JSON document `doc` as
/// `serde_json::from_str::<serde_json::Value>` reads it: `None` when
/// `serde_json` refuses the text; otherwise, for an object, each member whose
/// value is a string, with that string (no members for any other value).
pub uninterp spec fn json_strings(doc: Seq<char>) -> Option<Map<Seq<char>, Seq<char>>>;

/// The member `key` of `m`, if any.
pub open spec fn member(m: Map<Seq<char>, Seq<char>>, key: Seq<char>) -> Option<Seq<char>> {
    if m.dom().contains(key) {
        Some(m[key])
    } else {
        None
    }
}

/// The text in `o`, if any.
pub open spec fn opt_text(o: Option<String>) -> Option<Seq<char>> {
    match o {
        Some(s) => Some(s@),
        None => None,
    }
}

/// Calls `serde_json::from_str::<serde_json::Value>` on `doc` and, when it
/// succeeds, indexes the value by each of `keys` and calls `as_str` on the
/// member.  Both depend on the text alone, which `json_strings` names.
#[verifier::external_body]
fn json_string_members(doc: &str, keys: &[&str]) -> (r: Option<Vec<Option<String>>>)
    ensures
        r is Some <==> json_strings(doc@) is Some,
        r matches Some(m) ==> {
            &&& m@.len() == keys@.len()
            &&& forall|i: int|
                0 <= i < keys@.len() ==> #[trigger] opt_text(m@[i]) == member(
                    json_strings(doc@).unwrap(),
                    keys@[i]@,
                )
        },
{
    match serde_json::from_str::<serde_json::Value>(doc) {
        Ok(v) => Some(keys.iter().map(|k| v[*k].as_str().map(|t| t.to_string())).collect()),
        Err(_) => None,
    }
}

/// The text in `o`, or the empty text.
pub open spec fn text_or_empty(o: Option<Seq<char>>) -> Seq<char> {
    match o {
        Some(t) => t,
        None => Seq::empty(),
    }
}

fn or_empty(o: Option<String>) -> (s: String)
    ensures
        s@ == text_or_empty(opt_text(o)),
{
    match o {
        Some(t) => t,
        None => String::new(),
    }
}

/// A container as its id, name, image, status and ports.
pub open spec fn container_view(c: DockerContainer) -> (Seq<char>, Seq<char>, Seq<char>, Seq<char>, Seq<char>) {
    (c.container_id@, c.name@, c.image@, c.status@, c.ports@)
}

/// The container that the string members `m` describe: the members `ID`,
/// `Names`, `Image`, `Status` and `Ports`, the empty text for each that is
/// missing.
pub open spec fn container_of(m: Map<Seq<char>, Seq<char>>) -> (Seq<char>, Seq<char>, Seq<char>, Seq<char>, Seq<char>) {
    (
        text_or_empty(member(m, "ID"@)),
        text_or_empty(member(m, "Names"@)),
        text_or_empty(member(m, "Image"@)),
        text_or_empty(member(m, "Status"@)),
        text_or_empty(member(m, "Ports"@)),
    )
}

/// One line of the listing holds a container: trimmed, it is not empty and
/// it is a JSON document.
pub open spec fn container_line(l: Seq<char>) -> bool {
    trim(l).len() > 0 && json_strings(trim(l)) is Some
}

/// The containers that the lines `ls` hold, in order.
pub open spec fn containers_of(ls: Seq<Seq<char>>) -> Seq<(Seq<char>, Seq<char>, Seq<char>, Seq<char>, Seq<char>)>
    decreases ls.len(),
{
    if ls.len() == 0 {
        Seq::empty()
    } else if container_line(ls.last()) {
        containers_of(ls.drop_last()).push(container_of(json_strings(trim(ls.last())).unwrap()))
    } else {
        containers_of(ls.drop_last())
    }
}

/// Reads the containers from the output of `docker ps -a --format
/// '{{json .}}'`: one container for each line that holds a JSON document,
/// in order, with the members `ID`, `Names`, `Image`, `Status` and `Ports`
/// (the empty text when missing).
pub fn parse_docker_json(output: &str) -> (containers: Vec<DockerContainer>)
    ensures
        containers@.map_values(|c: DockerContainer| container_view(c)) == containers_of(lines(output@)),
{
    let mut keys: Vec<&str> = Vec::new();
    keys.push("ID");
    keys.push("Names");
    keys.push("Image");
    keys.push("Status");
    keys.push("Ports");
    let ls = lines_of(output);
    let ghost all = views(ls@);
    let mut containers: Vec<DockerContainer> = Vec::new();
    let mut i: usize = 0;
    assert(all.take(0) =~= Seq::<Seq<char>>::empty());
    while i < ls.len()
        invariant
            i <= ls@.len(),
            all == views(ls@),
            keys@ == seq!["ID", "Names", "Image", "Status", "Ports"],
            containers@.map_values(|c: DockerContainer| container_view(c)) =~= containers_of(all.take(i as int)),
        decreases ls@.len() - i,
    {
        assert(all.take(i + 1).drop_last() =~= all.take(i as int));
        assert(all.take(i + 1).last() == ls@[i as int]@);
        let line = trim_str(ls[i].as_str());
        if chars_of(line).len() > 0 {
            match json_string_members(line, keys.as_slice()) {
                Some(m) => {
                    let mut m = m;
                    assert(opt_text(m@[0]) == member(json_strings(line@).unwrap(), "ID"@));
                    assert(opt_text(m@[1]) == member(json_strings(line@).unwrap(), "Names"@));
                    assert(opt_text(m@[2]) == member(json_strings(line@).unwrap(), "Image"@));
                    assert(opt_text(m@[3]) == member(json_strings(line@).unwrap(), "Status"@));
                    assert(opt_text(m@[4]) == member(json_strings(line@).unwrap(), "Ports"@));
                    let ports = or_empty(m.pop().unwrap());
                    let status = or_empty(m.pop().unwrap());
                    let image = or_empty(m.pop().unwrap());
                    let name = or_empty(m.pop().unwrap());
                    let container_id = or_empty(m.pop().unwrap());
                    let container = DockerContainer { container_id, name, image, status, ports };
                    let ghost before = containers@;
                    containers.push(container);
                    assert(containers@.map_values(|c: DockerContainer| container_view(c)) =~= before.map_values(
                        |c: DockerContainer| container_view(c),
                    ).push(container_view(container)));
                },
                None => {},
            }
        }
        i = i + 1;
    }
    assert(all.take(i as int) =~= all);
    containers
}

/// The line `l` holds a JSON document (trimmed, not empty) and `c` is the
/// container it describes: id, name, image, status and ports are its
/// string members `ID`, `Names`, `Image`, `Status` and `Ports`, each the
/// empty text when the document has no such string member.
pub open spec fn describes(l: Seq<char>, c: (Seq<char>, Seq<char>, Seq<char>, Seq<char>, Seq<char>)) -> bool {
    let t = trim(l);
    &&& t.len() > 0
    &&& json_strings(t) is Some
    &&& {
        let m = json_strings(t).unwrap();
        &&& c.0 == (if m.dom().contains("ID"@) { m["ID"@] } else { Seq::empty() })
        &&& c.1 == (if m.dom().contains("Names"@) { m["Names"@] } else { Seq::empty() })
        &&& c.2 == (if m.dom().contains("Image"@) { m["Image"@] } else { Seq::empty() })
        &&& c.3 == (if m.dom().contains("Status"@) { m["Status"@] } else { Seq::empty() })
        &&& c.4 == (if m.dom().contains("Ports"@) { m["Ports"@] } else { Seq::empty() })
    }
}

/// Some line of `ls` describes the container `c`.
pub open spec fn described_by_some_line(ls: Seq<Seq<char>>, c: (Seq<char>, Seq<char>, Seq<char>, Seq<char>, Seq<char>)) -> bool {
    exists|j: int| 0 <= j < ls.len() && #[trigger] describes(ls[j], c)
}

proof fn lemma_container_line_describes(l: Seq<char>)
    requires
        container_line(l),
    ensures
        describes(l, container_of(json_strings(trim(l)).unwrap())),
{
}

proof fn lemma_containers_from(ls: Seq<Seq<char>>)
    ensures
        forall|k: int|
            0 <= k < containers_of(ls).len() ==> #[trigger] described_by_some_line(ls, containers_of(ls)[k]),
        forall|j: int|
            0 <= j < ls.len() && #[trigger] container_line(ls[j]) ==> exists|k: int|
                0 <= k < containers_of(ls).len() && containers_of(ls)[k] == container_of(
                    json_strings(trim(ls[j])).unwrap(),
                ),
    decreases ls.len(),
{
    if ls.len() > 0 {
        let p = ls.drop_last();
        lemma_containers_from(p);
        let e = containers_of(ls);
        let pe = containers_of(p);
        assert forall|k: int| 0 <= k < e.len() implies #[trigger] described_by_some_line(ls, e[k]) by {
            if k < pe.len() {
                assert(e[k] == pe[k]);
                assert(described_by_some_line(p, pe[k]));
                let j = choose|j: int| 0 <= j < p.len() && #[trigger] describes(p[j], pe[k]);
                assert(ls[j] == p[j]);
                assert(describes(ls[j], e[k]));
            } else {
                let j = ls.len() - 1;
                assert(ls[j] == ls.last());
                lemma_container_line_describes(ls.last());
                assert(describes(ls[j], e[k]));
            }
        }
        assert forall|j: int| 0 <= j < ls.len() && #[trigger] container_line(ls[j]) implies exists|k: int|
            0 <= k < e.len() && e[k] == container_of(json_strings(trim(ls[j])).unwrap()) by {
            if j < p.len() {
                assert(ls[j] == p[j]);
                assert(container_line(p[j]));
                let k = choose|k: int| 0 <= k < pe.len() && pe[k] == container_of(json_strings(trim(p[j])).unwrap());
                assert(e[k] == pe[k]);
            } else {
                assert(ls[j] == ls.last());
                assert(e[pe.len() as int] == container_of(json_strings(trim(ls.last())).unwrap()));
            }
        }
    }
}

/// What a listing gives: every container is described by a line of the
/// listing (its id, name, image, status and ports are the string members
/// `ID`, `Names`, `Image`, `Status` and `Ports` of the line's JSON
/// document), and every line that holds a JSON document gives the
/// container it describes.
pub proof fn containers_are_their_json_members(ls: Seq<Seq<char>>)
    ensures
        forall|k: int|
            0 <= k < containers_of(ls).len() ==> #[trigger] described_by_some_line(ls, containers_of(ls)[k]),
        forall|j: int|
            0 <= j < ls.len() && trim(ls[j]).len() > 0 && json_strings(trim(#[trigger] ls[j])) is Some
                ==> exists|k: int|
                0 <= k < containers_of(ls).len() && #[trigger] describes(ls[j], containers_of(ls)[k]),
{
    lemma_containers_from(ls);
    assert forall|j: int|
        0 <= j < ls.len() && trim(ls[j]).len() > 0 && json_strings(trim(#[trigger] ls[j])) is Some
            implies exists|k: int|
            0 <= k < containers_of(ls).len() && #[trigger] describes(ls[j], containers_of(ls)[k]) by {
        assert(container_line(ls[j]));
        let k = choose|k: int|
            0 <= k < containers_of(ls).len() && containers_of(ls)[k] == container_of(
                json_strings(trim(ls[j])).unwrap(),
            );
        lemma_container_line_describes(ls[j]);
        assert(describes(ls[j], containers_of(ls)[k]));
    }
}

} // verus!
