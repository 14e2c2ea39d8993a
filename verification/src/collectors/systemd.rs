//! Service units, as `systemctl list-units --type=service --all --no-legend`
//! prints them.

use vstd::prelude::*;
use crate::models::{ServiceView, SystemdService};
use crate::text::{
    chars_of, count_ws, find_ws, first_ws, lines, lines_of, trim, trim_start, trim_start_char,
    trim_end, trim_start_matches_char, trim_start_str, trim_str, views, words, ws_count, is_ws,
};

verus! {

/// Up to `n` whitespace-separated fields taken from the front of `rest`, and
/// what follows the last one.  Taking stops early, with nothing left over,
/// at a field that reaches the end of the text.
pub open spec fn take_fields(rest: Seq<char>, n: nat) -> (Seq<Seq<char>>, Seq<char>)
    decreases n,
{
    if n == 0 {
        (Seq::empty(), rest)
    } else {
        let r = trim_start(rest);
        match first_ws(r) {
            Some(p) => {
                let next = take_fields(r.skip(p), (n - 1) as nat);
                (seq![r.take(p)] + next.0, next.1)
            },
            None => (seq![r], Seq::empty()),
        }
    }
}

/// The service that one line of the unit listing describes, if any.  The
/// line is trimmed, stripped of the `●` marker of failed units and trimmed
/// again; it needs at least three whitespace characters and four fields:
/// unit, load state, active state and sub state; the rest, trimmed, is the
/// description.
pub open spec fn unit_entry(l: Seq<char>) -> Option<ServiceView> {
    let t = trim(l);
    let u = trim(trim_start_char(t, '●'));
    let f = take_fields(u, 4);
    if t.len() == 0 || ws_count(u) < 3 || f.0.len() < 4 {
        None
    } else {
        Some(
            ServiceView {
                name: f.0[0],
                load_state: f.0[1],
                active_state: f.0[2],
                sub_state: f.0[3],
                description: trim(f.1),
            },
        )
    }
}

/// The services that the lines `ls` describe, in order.
pub open spec fn unit_entries(ls: Seq<Seq<char>>) -> Seq<ServiceView>
    decreases ls.len(),
{
    if ls.len() == 0 {
        Seq::empty()
    } else {
        unit_entries(ls.drop_last()) + match unit_entry(ls.last()) {
            Some(e) => seq![e],
            None => Seq::empty(),
        }
    }
}

/// The views of a list of services.
pub open spec fn service_views(v: Seq<SystemdService>) -> Seq<ServiceView> {
    v.map_values(|s: SystemdService| s@)
}

fn unit_line(line: &str) -> (r: Option<SystemdService>)
    ensures
        match r {
            Some(s) => unit_entry(line@) == Some(s@),
            None => unit_entry(line@) is None,
        },
{
    let t = trim_str(line);
    if chars_of(t).len() == 0 {
        return None;
    }
    let u = trim_str(trim_start_matches_char(t, '●'));
    if count_ws(u) < 3 {
        return None;
    }
    let mut fields: Vec<String> = Vec::new();
    let mut rest: &str = u;
    let mut k: usize = 0;
    let mut stopped = false;
    while k < 4 && !stopped
        invariant
            k <= 4,
            fields@.len() == k,
            stopped ==> rest@.len() == 0 && take_fields(u@, 4) == (views(fields@), rest@),
            !stopped ==> take_fields(u@, 4) == (
                views(fields@) + take_fields(rest@, (4 - k) as nat).0,
                take_fields(rest@, (4 - k) as nat).1,
            ),
        decreases 4 - k,
    {
        let r = trim_start_str(rest);
        let rv = chars_of(r);
        let ghost old_fields = views(fields@);
        match find_ws(&rv) {
            Some(p) => {
                fields.push(String::from_str(r.substring_char(0, p)));
                assert(rv@.subrange(0, p as int) =~= rv@.take(p as int));
                assert(rv@.subrange(p as int, rv.len() as int) =~= rv@.skip(p as int));
                rest = r.substring_char(p, rv.len());
                assert(views(fields@) =~= old_fields + seq![rv@.take(p as int)]);
            },
            None => {
                fields.push(String::from_str(r));
                assert(views(fields@) =~= old_fields + seq![r@]);
                rest = "";
                stopped = true;
                assert(rest@.len() == 0) by {
                    reveal_strlit("");
                }
            },
        }
        k = k + 1;
    }
    if !stopped {
        assert(take_fields(rest@, 0).0 =~= Seq::<Seq<char>>::empty());
        assert(views(fields@) + Seq::<Seq<char>>::empty() =~= views(fields@));
    }
    if fields.len() < 4 {
        return None;
    }
    let description = String::from_str(trim_str(rest));
    assert(fields@[0]@ == views(fields@)[0]);
    assert(fields@[1]@ == views(fields@)[1]);
    assert(fields@[2]@ == views(fields@)[2]);
    assert(fields@[3]@ == views(fields@)[3]);
    Some(
        SystemdService {
            name: fields[0].clone(),
            load_state: fields[1].clone(),
            active_state: fields[2].clone(),
            sub_state: fields[3].clone(),
            description,
        },
    )
}

/// Reads the services from the output of `systemctl list-units --type=service
/// --all --no-legend`.
pub fn parse_systemctl_output(output: &str) -> (services: Vec<SystemdService>)
    ensures
        service_views(services@) == unit_entries(lines(output@)),
{
    let ls = lines_of(output);
    let mut services: Vec<SystemdService> = Vec::new();
    let ghost all = views(ls@);
    let mut i: usize = 0;
    assert(all.take(0) =~= Seq::<Seq<char>>::empty());
    while i < ls.len()
        invariant
            i <= ls@.len(),
            all == views(ls@),
            service_views(services@) =~= unit_entries(all.take(i as int)),
        decreases ls@.len() - i,
    {
        assert(all.take(i + 1).drop_last() =~= all.take(i as int));
        assert(all.take(i + 1).last() == ls@[i as int]@);
        match unit_line(ls[i].as_str()) {
            Some(s) => {
                services.push(s);
            },
            None => {},
        }
        i = i + 1;
    }
    assert(all.take(i as int) =~= all);
    services
}

proof fn lemma_first_ws(s: Seq<char>)
    ensures
        first_ws(s) matches Some(p) ==> 0 <= p < s.len() && is_ws(s[p]) && forall|q: int|
            0 <= q < p ==> !is_ws(#[trigger] s[q]),
        first_ws(s) is None ==> forall|q: int| 0 <= q < s.len() ==> !is_ws(#[trigger] s[q]),
    decreases s.len(),
{
    if s.len() > 0 {
        lemma_first_ws(s.drop_first());
        assert forall|q: int| 1 <= q < s.len() implies #[trigger] s[q] == s.drop_first()[q - 1] by {}
        if !is_ws(s[0]) {
            match first_ws(s.drop_first()) {
                Some(k) => {
                    assert forall|q: int| 0 <= q < k + 1 implies !is_ws(#[trigger] s[q]) by {
                        if q > 0 {
                            assert(s[q] == s.drop_first()[q - 1]);
                        }
                    }
                },
                None => {
                    assert forall|q: int| 0 <= q < s.len() implies !is_ws(#[trigger] s[q]) by {
                        if q > 0 {
                            assert(s[q] == s.drop_first()[q - 1]);
                        }
                    }
                },
            }
        }
    }
}

proof fn lemma_trim_start(s: Seq<char>) -> (n: int)
    ensures
        0 <= n <= s.len(),
        trim_start(s) == s.skip(n),
        forall|q: int| 0 <= q < n ==> is_ws(#[trigger] s[q]),
        n < s.len() ==> !is_ws(s[n]),
    decreases s.len(),
{
    if s.len() > 0 && is_ws(s[0]) {
        let m = lemma_trim_start(s.drop_first());
        assert(s.drop_first().skip(m) =~= s.skip(m + 1));
        assert forall|q: int| 0 <= q < m + 1 implies is_ws(#[trigger] s[q]) by {
            if q > 0 {
                assert(s[q] == s.drop_first()[q - 1]);
            }
        }
        if m + 1 < s.len() {
            assert(s[m + 1] == s.drop_first()[m]);
        }
        m + 1
    } else {
        assert(s.skip(0) =~= s);
        0
    }
}

proof fn lemma_trim_end_last(s: Seq<char>)
    ensures
        trim_end(s).len() > 0 ==> !is_ws(trim_end(s).last()),
    decreases s.len(),
{
    if s.len() > 0 && is_ws(s.last()) {
        lemma_trim_end_last(s.drop_last());
    }
}

proof fn lemma_words_nonempty(s: Seq<char>)
    requires
        s.len() > 0,
        !is_ws(s.last()),
    ensures
        words(s).len() > 0,
    decreases s.len(),
{
    if s.len() >= 2 && !is_ws(s[s.len() - 2]) {
        assert(s.drop_last().last() == s[s.len() - 2]);
        lemma_words_nonempty(s.drop_last());
    }
}

proof fn lemma_words_all_ws(s: Seq<char>)
    requires
        forall|q: int| 0 <= q < s.len() ==> is_ws(#[trigger] s[q]),
    ensures
        words(s).len() == 0,
    decreases s.len(),
{
    if s.len() > 0 {
        assert(is_ws(s[s.len() - 1]));
        lemma_words_all_ws(s.drop_last());
    }
}

proof fn lemma_words_one(s: Seq<char>)
    requires
        s.len() > 0,
        forall|q: int| 0 <= q < s.len() ==> !is_ws(#[trigger] s[q]),
    ensures
        words(s) == seq![s],
    decreases s.len(),
{
    assert(!is_ws(s[s.len() - 1]));
    if s.len() == 1 {
        assert(s.drop_last() =~= Seq::<char>::empty());
        assert(words(Seq::<char>::empty()) == Seq::<Seq<char>>::empty());
        assert(seq![s.last()] =~= s);
    } else {
        assert(!is_ws(s[s.len() - 2]));
        lemma_words_one(s.drop_last());
        assert(s.drop_last().push(s.last()) =~= s);
    }
}

proof fn lemma_words_concat(a: Seq<char>, b: Seq<char>)
    requires
        a.len() == 0 || b.len() == 0 || is_ws(a.last()) || is_ws(b[0]),
    ensures
        words(a + b) == words(a) + words(b),
    decreases b.len(),
{
    if b.len() == 0 {
        assert(a + b =~= a);
        assert(words(a) + words(b) =~= words(a));
    } else {
        let n = b.len();
        let c = b.last();
        assert((a + b).drop_last() =~= a + b.drop_last());
        assert((a + b).last() == c);
        if b.drop_last().len() > 0 {
            assert(b.drop_last()[0] == b[0]);
        }
        lemma_words_concat(a, b.drop_last());
        let wa = words(a);
        let wb = words(b.drop_last());
        if is_ws(c) {
        } else if (a + b).len() >= 2 && !is_ws((a + b)[(a + b).len() - 2]) {
            if n >= 2 {
                assert((a + b)[(a + b).len() - 2] == b[n - 2]);
                assert(b.drop_last().last() == b[n - 2]);
                lemma_words_nonempty(b.drop_last());
                assert(words(a + b) =~= wa + wb.update(wb.len() - 1, wb.last().push(c)));
            } else {
                assert((a + b)[(a + b).len() - 2] == a.last());
                assert(b[0] == c);
            }
        } else {
            if n >= 2 {
                assert((a + b)[(a + b).len() - 2] == b[n - 2]);
            }
            assert(words(a + b) =~= wa + wb.push(seq![c]));
        }
    }
}

proof fn lemma_take_fields_words(rest: Seq<char>, n: nat)
    requires
        rest.len() > 0,
        !is_ws(rest.last()),
    ensures
        words(rest) == take_fields(rest, n).0 + words(take_fields(rest, n).1),
        take_fields(rest, n).1.len() == 0 || !is_ws(take_fields(rest, n).1.last()),
        take_fields(rest, n).0.len() < n ==> take_fields(rest, n).1.len() == 0,
    decreases n,
{
    if n == 0 {
        assert(Seq::<Seq<char>>::empty() + words(rest) =~= words(rest));
    } else {
        let m = lemma_trim_start(rest);
        let r = trim_start(rest);
        assert(m < rest.len()) by {
            if m == rest.len() {
                assert(is_ws(rest[rest.len() - 1]));
            }
        }
        assert(rest =~= rest.take(m) + r);
        assert(r.last() == rest.last());
        lemma_words_concat(rest.take(m), r);
        lemma_words_all_ws(rest.take(m));
        assert(words(rest.take(m)) + words(r) =~= words(r));
        lemma_first_ws(r);
        match first_ws(r) {
            Some(p) => {
                assert(p > 0) by {
                    if p == 0 {
                        assert(r[0] == rest[m]);
                    }
                }
                let w = r.take(p);
                let tail = r.skip(p);
                assert(r =~= w + tail);
                assert(tail[0] == r[p]);
                lemma_words_concat(w, tail);
                lemma_words_one(w);
                assert(tail.last() == r.last());
                lemma_take_fields_words(tail, (n - 1) as nat);
                let next = take_fields(tail, (n - 1) as nat);
                assert(take_fields(rest, n).0 == seq![w] + next.0);
                assert(words(rest) =~= seq![w] + next.0 + words(next.1));
            },
            None => {
                lemma_words_one(r);
                assert(words(Seq::<char>::empty()) == Seq::<Seq<char>>::empty());
                assert(seq![r] + Seq::<Seq<char>>::empty() =~= seq![r]);
            },
        }
    }
}

/// The text of a listing line that holds the unit's fields: the line
/// trimmed, stripped of the `●` marker of failed units, and trimmed again.
pub open spec fn unit_text(l: Seq<char>) -> Seq<char> {
    trim(trim_start_char(trim(l), '●'))
}

/// A line gives a service exactly when it is not blank, its unit text has
/// at least three whitespace characters and at least four words; the
/// service's unit, load state, active state and sub state are then the
/// first four whitespace-separated words of the unit text.
pub proof fn units_are_their_first_words(l: Seq<char>)
    ensures
        unit_entry(l) is Some <==> (trim(l).len() > 0 && ws_count(unit_text(l)) >= 3 && words(
            unit_text(l),
        ).len() >= 4),
        unit_entry(l) matches Some(e) ==> {
            &&& e.name == words(unit_text(l))[0]
            &&& e.load_state == words(unit_text(l))[1]
            &&& e.active_state == words(unit_text(l))[2]
            &&& e.sub_state == words(unit_text(l))[3]
        },
{
    let u = unit_text(l);
    let f = take_fields(u, 4);
    if u.len() == 0 {
        assert(trim_start(u) == u);
        assert(first_ws(u) is None);
        assert(f.0.len() == 1);
        assert(words(u).len() == 0);
    } else {
        lemma_trim_end_last(trim_start(trim_start_char(trim(l), '●')));
        lemma_take_fields_words(u, 4);
        if f.0.len() < 4 {
            assert(words(Seq::<char>::empty()).len() == 0);
            assert(words(u) =~= f.0 + Seq::<Seq<char>>::empty());
        } else {
            assert(words(u)[0] == f.0[0]);
            assert(words(u)[1] == f.0[1]);
            assert(words(u)[2] == f.0[2]);
            assert(words(u)[3] == f.0[3]);
        }
    }
}

proof fn lemma_unit_entries_from(ls: Seq<Seq<char>>)
    ensures
        forall|k: int|
            0 <= k < unit_entries(ls).len() ==> exists|j: int|
                0 <= j < ls.len() && unit_entry(#[trigger] ls[j]) == Some(#[trigger] unit_entries(ls)[k]),
        forall|j: int|
            0 <= j < ls.len() && unit_entry(#[trigger] ls[j]) is Some ==> exists|k: int|
                0 <= k < unit_entries(ls).len() && Some(#[trigger] unit_entries(ls)[k]) == unit_entry(ls[j]),
    decreases ls.len(),
{
    if ls.len() > 0 {
        let p = ls.drop_last();
        lemma_unit_entries_from(p);
        let e = unit_entries(ls);
        let pe = unit_entries(p);
        assert forall|k: int| #![trigger e[k]] 0 <= k < e.len() implies exists|j: int|
            0 <= j < ls.len() && unit_entry(#[trigger] ls[j]) == Some(#[trigger] e[k]) by {
            if k < pe.len() {
                assert(e[k] == pe[k]);
                let j = choose|j: int| 0 <= j < p.len() && unit_entry(#[trigger] p[j]) == Some(pe[k]);
                assert(ls[j] == p[j]);
            } else {
                assert(ls[ls.len() - 1] == ls.last());
            }
        }
        assert forall|j: int| 0 <= j < ls.len() && unit_entry(#[trigger] ls[j]) is Some implies exists|k: int|
            0 <= k < e.len() && Some(#[trigger] e[k]) == unit_entry(ls[j]) by {
            if j < p.len() {
                assert(ls[j] == p[j]);
                let k = choose|k: int| 0 <= k < pe.len() && Some(#[trigger] pe[k]) == unit_entry(p[j]);
                assert(e[k] == pe[k]);
            } else {
                assert(e[pe.len() as int] == unit_entry(ls.last()).unwrap());
            }
        }
    }
}

/// The unit text of `l` has at least four words, and the unit, load state,
/// active state and sub state of `e` are its first four.
pub open spec fn first_words_are(l: Seq<char>, e: ServiceView) -> bool {
    let w = words(unit_text(l));
    &&& w.len() >= 4
    &&& e.name == w[0]
    &&& e.load_state == w[1]
    &&& e.active_state == w[2]
    &&& e.sub_state == w[3]
}

/// Some line of `ls` has a unit text whose first four words are the unit,
/// load state, active state and sub state of `e`.
pub open spec fn from_some_line(ls: Seq<Seq<char>>, e: ServiceView) -> bool {
    exists|j: int| 0 <= j < ls.len() && #[trigger] first_words_are(ls[j], e)
}

proof fn lemma_entries_from_lines(ls: Seq<Seq<char>>)
    ensures
        forall|k: int|
            0 <= k < unit_entries(ls).len() ==> #[trigger] from_some_line(ls, unit_entries(ls)[k]),
{
    lemma_unit_entries_from(ls);
    assert forall|k: int| 0 <= k < unit_entries(ls).len() implies #[trigger] from_some_line(ls, unit_entries(ls)[k]) by {
        let j = choose|j: int| 0 <= j < ls.len() && unit_entry(#[trigger] ls[j]) == Some(#[trigger] unit_entries(ls)[k]);
        units_are_their_first_words(ls[j]);
        assert(first_words_are(ls[j], unit_entries(ls)[k]));
    }
}

proof fn lemma_lines_give_entries(ls: Seq<Seq<char>>)
    ensures
        forall|j: int|
            0 <= j < ls.len() && trim(ls[j]).len() > 0 && ws_count(unit_text(ls[j])) >= 3 && words(
                unit_text(#[trigger] ls[j]),
            ).len() >= 4 ==> exists|k: int|
                0 <= k < unit_entries(ls).len() && #[trigger] first_words_are(ls[j], unit_entries(ls)[k]),
{
    lemma_unit_entries_from(ls);
    assert forall|j: int|
        0 <= j < ls.len() && trim(ls[j]).len() > 0 && ws_count(unit_text(ls[j])) >= 3 && words(
            unit_text(#[trigger] ls[j]),
        ).len() >= 4 implies exists|k: int|
        0 <= k < unit_entries(ls).len() && #[trigger] first_words_are(ls[j], unit_entries(ls)[k]) by {
        units_are_their_first_words(ls[j]);
        let k = choose|k: int| 0 <= k < unit_entries(ls).len() && Some(#[trigger] unit_entries(ls)[k]) == unit_entry(ls[j]);
        assert(first_words_are(ls[j], unit_entries(ls)[k]));
    }
}

/// What a listing gives: every service comes from a line of the listing
/// whose unit text has at least four words, and its unit, load state,
/// active state and sub state are the first four of them; and every line
/// that is not blank and whose unit text has at least three whitespace
/// characters and four words gives such a service.
pub proof fn listing_services_are_line_words(ls: Seq<Seq<char>>)
    ensures
        forall|k: int|
            0 <= k < unit_entries(ls).len() ==> #[trigger] from_some_line(ls, unit_entries(ls)[k]),
        forall|j: int|
            0 <= j < ls.len() && trim(ls[j]).len() > 0 && ws_count(unit_text(ls[j])) >= 3 && words(
                unit_text(#[trigger] ls[j]),
            ).len() >= 4 ==> exists|k: int|
                0 <= k < unit_entries(ls).len() && #[trigger] first_words_are(ls[j], unit_entries(ls)[k]),
{
    lemma_entries_from_lines(ls);
    lemma_lines_give_entries(ls);
}

} // verus!
