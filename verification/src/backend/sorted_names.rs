//! The data of the nodes of a sorted hierarchy as the application shows them: the automatic
//! name made of the time and the place, and the identification path as bytes.

use vstd::prelude::*;
use vstd::string::StringExecFns;
use crate::backend::main_hierarchy::{auto_name_status, AutoNameStatus, NameError};
use crate::bintree::HorizontalIdx;
use crate::deep_sorter::naming::NamingErr;

verus! {

/// The views of a sequence of strings.
pub open spec fn names_view(v: Seq<String>) -> Seq<Seq<char>> {
    v.map_values(|s: String| s@)
}

/// The names of a place that stand in its automatic name: the names up to and including the
/// first prioritised one, without the banned ones, in order.
pub open spec fn kept_names(names: Seq<Seq<char>>, prioritized: Seq<Seq<char>>, banned: Seq<Seq<char>>) -> Seq<Seq<char>>
    decreases names.len(),
{
    if names.len() == 0 {
        Seq::empty()
    } else {
        let prev = kept_names(names.drop_last(), prioritized, banned);
        let stopped = exists|j: int| 0 <= j < names.len() - 1 && prioritized.contains(#[trigger] names[j]);
        if stopped || banned.contains(names.last()) {
            prev
        } else {
            prev.push(names.last())
        }
    }
}

/// Every kept name is one of the names, and none is banned.
pub proof fn lemma_kept_names_listed(names: Seq<Seq<char>>, prioritized: Seq<Seq<char>>, banned: Seq<Seq<char>>)
    ensures
        forall|k: int|
            0 <= k < kept_names(names, prioritized, banned).len() ==> {
                let x = #[trigger] kept_names(names, prioritized, banned)[k];
                names.contains(x) && !banned.contains(x)
            },
    decreases names.len(),
{
    if names.len() > 0 {
        let rest = names.drop_last();
        lemma_kept_names_listed(rest, prioritized, banned);
        let prev = kept_names(rest, prioritized, banned);
        assert forall|k: int| 0 <= k < kept_names(names, prioritized, banned).len() implies {
            let x = #[trigger] kept_names(names, prioritized, banned)[k];
            names.contains(x) && !banned.contains(x)
        } by {
            let x = kept_names(names, prioritized, banned)[k];
            if k < prev.len() {
                assert(x == prev[k]);
                let i = choose|i: int| 0 <= i < rest.len() && rest[i] == x;
                assert(names[i] == x);
            } else {
                assert(x == names[names.len() - 1]);
            }
        }
    }
}

/// A prioritised name ends the place: cutting the names right after a prioritised one changes
/// nothing, so no name after it is kept.
pub proof fn lemma_prioritized_name_ends(
    names: Seq<Seq<char>>,
    prioritized: Seq<Seq<char>>,
    banned: Seq<Seq<char>>,
    j: int,
)
    requires
        0 <= j < names.len(),
        prioritized.contains(names[j]),
    ensures
        kept_names(names, prioritized, banned) == kept_names(names.take(j + 1), prioritized, banned),
        forall|k: int|
            0 <= k < kept_names(names, prioritized, banned).len() ==> names.take(j + 1).contains(
                #[trigger] kept_names(names, prioritized, banned)[k],
            ),
    decreases names.len(),
{
    if names.len() == j + 1 {
        assert(names.take(j + 1) =~= names);
    } else {
        let rest = names.drop_last();
        assert(rest[j] == names[j]);
        lemma_prioritized_name_ends(rest, prioritized, banned, j);
        assert(rest.take(j + 1) =~= names.take(j + 1));
        assert(exists|i: int| 0 <= i < names.len() - 1 && prioritized.contains(#[trigger] names[i]));
    }
    lemma_kept_names_listed(names.take(j + 1), prioritized, banned);
}

/// Up to the first prioritised name, every name that is not banned is kept, in order.
pub proof fn lemma_names_before_priority_kept(
    names: Seq<Seq<char>>,
    prioritized: Seq<Seq<char>>,
    banned: Seq<Seq<char>>,
    k: int,
)
    requires
        0 <= k <= names.len(),
        forall|i: int| 0 <= i < k - 1 ==> !prioritized.contains(#[trigger] names[i]),
    ensures
        kept_names(names.take(k), prioritized, banned) == names.take(k).filter(|x: Seq<char>| !banned.contains(x)),
    decreases k,
{
    reveal_with_fuel(Seq::filter, 1);
    if k == 0 {
        assert(names.take(0) =~= Seq::<Seq<char>>::empty());
    } else {
        let t = names.take(k);
        lemma_names_before_priority_kept(names, prioritized, banned, k - 1);
        assert(t.drop_last() =~= names.take(k - 1));
        assert(!(exists|i: int| 0 <= i < t.len() - 1 && prioritized.contains(#[trigger] t[i]))) by {
            if exists|i: int| 0 <= i < t.len() - 1 && prioritized.contains(#[trigger] t[i]) {
                let i = choose|i: int| 0 <= i < t.len() - 1 && prioritized.contains(#[trigger] t[i]);
                assert(t[i] == names[i]);
            }
        }
    }
}

/// `parts` joined with `sep` between each two.
pub open spec fn joined(parts: Seq<Seq<char>>, sep: Seq<char>) -> Seq<char>
    decreases parts.len(),
{
    if parts.len() == 0 {
        Seq::empty()
    } else if parts.len() == 1 {
        parts[0]
    } else {
        joined(parts.drop_last(), sep) + sep + parts.last()
    }
}

/// Whether `list` holds the string `s`.
fn holds_name(list: &Vec<String>, s: &String) -> (r: bool)
    ensures
        r == names_view(list@).contains(s@),
{
    let mut i: usize = 0;
    while i < list.len()
        invariant
            i <= list.len(),
            forall|j: int| 0 <= j < i ==> list@[j]@ != s@,
        decreases list.len() - i,
    {
        if list[i] == *s {
            proof {
                assert(names_view(list@)[i as int] == s@);
            }
            return true;
        }
        i = i + 1;
    }
    proof {
        if names_view(list@).contains(s@) {
            let j = choose|j: int| 0 <= j < names_view(list@).len() && names_view(list@)[j] == s@;
            assert(list@[j]@ == s@);
        }
    }
    false
}

/// The place part of an automatic name: the names of the naming items up to and including the
/// first prioritised one, without the banned ones, joined with `", "`.
pub fn location_name(items: &Vec<String>, prioritized: &Vec<String>, banned: &Vec<String>) -> (r: String)
    ensures
        r@ == joined(kept_names(names_view(items@), names_view(prioritized@), names_view(banned@)), ", "@),
{
    let ghost names = names_view(items@);
    let ghost prio = names_view(prioritized@);
    let ghost ban = names_view(banned@);
    let sep = ", ";
    proof {
        reveal_strlit(", ");
    }
    let mut r = String::new();
    let mut stopped = false;
    let mut count: usize = 0;
    proof {
        assert(names.take(0) =~= Seq::<Seq<char>>::empty());
    }
    for i in 0..items.len()
        invariant
            names == names_view(items@),
            prio == names_view(prioritized@),
            ban == names_view(banned@),
            sep@ == ", "@,
            stopped == exists|j: int| 0 <= j < i && prio.contains(#[trigger] names[j]),
            r@ == joined(kept_names(names.take(i as int), prio, ban), sep@),
            count == kept_names(names.take(i as int), prio, ban).len(),
            count <= i,
    {
        let ghost t1 = names.take(i + 1);
        proof {
            assert(t1.drop_last() =~= names.take(i as int));
            assert(t1.last() == items@[i as int]@);
            assert((exists|j: int| 0 <= j < t1.len() - 1 && prio.contains(#[trigger] t1[j])) == stopped) by {
                if stopped {
                    let j = choose|j: int| 0 <= j < i && prio.contains(#[trigger] names[j]);
                    assert(t1[j] == names[j]);
                }
                if exists|j: int| 0 <= j < t1.len() - 1 && prio.contains(#[trigger] t1[j]) {
                    let j = choose|j: int| 0 <= j < t1.len() - 1 && prio.contains(#[trigger] t1[j]);
                    assert(t1[j] == names[j]);
                }
            }
        }
        let ghost prev = kept_names(names.take(i as int), prio, ban);
        let ghost was_stopped = stopped;
        let ghost old_r = r@;
        let is_prio = holds_name(prioritized, &items[i]);
        let ghost x = items@[i as int]@;
        if !stopped {
            let is_banned = holds_name(banned, &items[i]);
            if !is_banned {
                if count > 0 {
                    r.append(sep);
                }
                r.append(items[i].as_str());
                count = count + 1;
            }
            if is_prio {
                stopped = true;
            }
        }
        proof {
            assert(names[i as int] == x);
            if was_stopped || ban.contains(x) {
                assert(kept_names(t1, prio, ban) == prev);
            } else {
                assert(kept_names(t1, prio, ban) == prev.push(x));
                assert(prev.push(x).drop_last() =~= prev);
                if prev.len() > 0 {
                    assert(r@ =~= old_r + sep@ + x);
                } else {
                    assert(r@ =~= x);
                }
            }
            if is_prio {
                assert(names[i as int] == items@[i as int]@);
            }
            assert(stopped == exists|j: int| 0 <= j < i + 1 && prio.contains(#[trigger] names[j])) by {
                if exists|j: int| 0 <= j < i + 1 && prio.contains(#[trigger] names[j]) {
                    let j = choose|j: int| 0 <= j < i + 1 && prio.contains(#[trigger] names[j]);
                    if j == i {
                        assert(names[i as int] == items@[i as int]@);
                    }
                }
            }
        }
    }
    proof {
        assert(names.take(items.len() as int) =~= names);
    }
    r
}

/// The byte of a position in a parent.
pub open spec fn idx_byte(h: HorizontalIdx) -> u8 {
    match h {
        HorizontalIdx::Left => 0,
        HorizontalIdx::Right => 1,
    }
}

/// A `local_id_path` as bytes, as selections hold it.
pub fn local_id_bytes(path: &Vec<HorizontalIdx>) -> (r: Vec<u8>)
    ensures
        r@ == path@.map_values(|h: HorizontalIdx| idx_byte(h)),
{
    let mut r: Vec<u8> = Vec::new();
    for i in 0..path.len()
        invariant
            r@ == path@.take(i as int).map_values(|h: HorizontalIdx| idx_byte(h)),
    {
        let b: u8 = match path[i] {
            HorizontalIdx::Left => 0,
            HorizontalIdx::Right => 1,
        };
        r.push(b);
        proof {
            assert(path@.take(i + 1) =~= path@.take(i as int).push(path@[i as int]));
            assert(r@ =~= path@.take(i + 1).map_values(|h: HorizontalIdx| idx_byte(h)));
        }
    }
    proof {
        assert(path@.take(path.len() as int) =~= path@);
    }
    r
}

/// `r` is the automatic name of a node of a sorted hierarchy whose naming gave `name`, with the
/// time text `time`: a named node is named by its time and the place its naming items give
/// (see [`location_name`]); a node whose naming failed keeps its error; a node not named yet is
/// in progress while the naming runs, otherwise the naming failed as a whole, with the global
/// error if there is one. Every state but a successful one keeps the time as its partial name.
pub open spec fn is_sorted_auto_name<E>(
    name: Option<Result<Vec<String>, NamingErr<E>>>,
    time: String,
    prioritized: Seq<String>,
    banned: Seq<String>,
    global_naming_running: bool,
    global_naming_error: Option<String>,
    r: AutoNameStatus<E>,
) -> bool {
    match name {
        Some(Ok(items)) => r matches AutoNameStatus::Named(n) && n@ == time@ + joined(
            kept_names(names_view(items@), names_view(prioritized), names_view(banned)),
            ", "@,
        ),
        Some(Err(e)) => r == AutoNameStatus::Error { err: NameError::Other(e), name: Some(time) },
        None => if global_naming_running {
            r == AutoNameStatus::<E>::InProgress(Some(time))
        } else {
            r matches AutoNameStatus::Error { err, name: n } && n == Some(time) && match global_naming_error {
                Some(msg) => err == NameError::<E>::GlobalNamingError(msg),
                None => err matches NameError::UnexpectedError(m) && m@
                    == "naming not running but also no global error reported"@,
            }
        },
    }
}

/// The automatic name of a node of a sorted hierarchy (see [`is_sorted_auto_name`]).
pub fn sorted_auto_name<E>(
    name: Option<Result<Vec<String>, NamingErr<E>>>,
    time: String,
    prioritized: &Vec<String>,
    banned: &Vec<String>,
    global_naming_running: bool,
    global_naming_error: Option<String>,
) -> (r: AutoNameStatus<E>)
    ensures
        is_sorted_auto_name(name, time, prioritized@, banned@, global_naming_running, global_naming_error, r),
{
    let location = match &name {
        Some(Ok(items)) => location_name(items, prioritized, banned),
        _ => String::new(),
    };
    auto_name_status(name, time, location, global_naming_running, global_naming_error)
}

/// What chrono writes for the moment `time`, in seconds since 1970-01-01 00:00 UTC, shown at
/// the offset of `offset` seconds east of UTC, in the strftime style `style` read leniently;
/// [`None`] where chrono cannot represent the moment or the offset.
pub uninterp spec fn formatted_time(style: Seq<char>, time: i64, offset: i32) -> Option<Seq<char>>;

/// `chrono::FixedOffset::east_opt(offset)` and `chrono::DateTime::from_timestamp(time, 0)`,
/// the moment taken to that offset with `with_timezone` and formatted with
/// `StrftimeItems::new_lenient(style)`: the text chrono writes for the moment as seen at that
/// offset, a malformed specifier standing as written; [`None`] where `east_opt` or
/// `from_timestamp` gives none (an offset of a day or more, a moment out of chrono's range).
/// The claim is only that the result is that text, named [`formatted_time`].
#[verifier::external_body]
fn format_timestamp(style: &str, time: i64, offset: i32) -> (r: Option<String>)
    ensures
        match r {
            Some(s) => formatted_time(style@, time, offset) == Some(s@),
            None => formatted_time(style@, time, offset) is None,
        },
{
    let zone = chrono::FixedOffset::east_opt(offset)?;
    chrono::DateTime::from_timestamp(time, 0).map(
        |t| t.with_timezone(&zone).format_with_items(chrono::format::StrftimeItems::new_lenient(style)).to_string(),
    )
}

/// The time part of an automatic name: the moment `time` (seconds since 1970-01-01 00:00 UTC)
/// as seen at the photo's own offset of `offset` seconds east of UTC, in the strftime style
/// `style`; [`None`] for a moment or an offset out of chrono's range.
pub fn time_text(style: &str, time: i64, offset: i32) -> (r: Option<String>)
    ensures
        match r {
            Some(s) => formatted_time(style@, time, offset) == Some(s@),
            None => formatted_time(style@, time, offset) is None,
        },
{
    format_timestamp(style, time, offset)
}

} // verus!
