//! Filtering, the exactly-one-match constraint, sorting by device name and
//! the assembly of the final report.

use vstd::prelude::*;
use crate::device::{Config, DiskInfo};
use crate::render::{line_spec, render_lines};
use crate::text::{dec_string, dec_string_spec, lex_le, lemma_lex_total, lemma_lex_le_trans, str_lex_le};

verus! {

/// Whether a record survives the active filters: it is dropped when the
/// non-loop-only filter is active and its non-loop flag is unset, or when
/// the removable-only filter is active and it is not removable.  The two
/// constraints apply independently.
pub open spec fn retained(d: DiskInfo, cfg: Config) -> bool {
    !((cfg.non_loop_only && !d.non_loop) || (cfg.removable_only && !d.is_removable))
}

/// The retained subsequence, in enumeration order.
pub open spec fn filtered_spec(disks: Seq<DiskInfo>, cfg: Config) -> Seq<DiskInfo> {
    disks.filter(|d: DiskInfo| retained(d, cfg))
}

fn retained_exec(d: &DiskInfo, cfg: &Config) -> (r: bool)
    ensures
        r == retained(*d, *cfg),
{
    !((cfg.non_loop_only && !d.non_loop) || (cfg.removable_only && !d.is_removable))
}

/// Keeps exactly the records that survive the active filters, in order.
pub fn filter_devices(disks: &Vec<DiskInfo>, cfg: &Config) -> (r: Vec<DiskInfo>)
    ensures
        r@ == filtered_spec(disks@, *cfg),
{
    let mut out: Vec<DiskInfo> = Vec::new();
    let mut i: usize = 0;
    proof {
        assert(disks@.take(0).filter(|d: DiskInfo| retained(d, *cfg)) =~= Seq::<
            DiskInfo,
        >::empty()) by {
            reveal(Seq::filter);
        }
    }
    while i < disks.len()
        invariant
            0 <= i <= disks@.len(),
            out@ == disks@.take(i as int).filter(|d: DiskInfo| retained(d, *cfg)),
        decreases disks@.len() - i,
    {
        let keep = retained_exec(&disks[i], cfg);
        proof {
            let pred = |d: DiskInfo| retained(d, *cfg);
            assert(disks@.take(i + 1).drop_last() =~= disks@.take(i as int));
            assert(disks@.take(i + 1).last() == disks@[i as int]);
            reveal(Seq::filter);
        }
        if keep {
            let d = disks[i].clone();
            out.push(d);
        }
        i = i + 1;
    }
    proof {
        assert(disks@.take(disks@.len() as int) =~= disks@);
    }
    out
}

/// Filtering a second time with the same configuration is a no-op.
proof fn lemma_filter_idempotent_pred(s: Seq<DiskInfo>, pred: spec_fn(DiskInfo) -> bool)
    ensures
        s.filter(pred).filter(pred) == s.filter(pred),
    decreases s.len(),
{
    reveal(Seq::filter);
    if s.len() > 0 {
        lemma_filter_idempotent_pred(s.drop_last(), pred);
        if pred(s.last()) {
            assert(s.filter(pred).drop_last() =~= s.drop_last().filter(pred));
            assert(s.filter(pred).last() == s.last());
        }
    }
}

/// Two filters applied one after the other keep exactly the records that
/// satisfy both.
proof fn lemma_filter_conjoins_pred(
    s: Seq<DiskInfo>,
    p: spec_fn(DiskInfo) -> bool,
    q: spec_fn(DiskInfo) -> bool,
)
    ensures
        s.filter(p).filter(q) == s.filter(|d: DiskInfo| p(d) && q(d)),
    decreases s.len(),
{
    reveal(Seq::filter);
    if s.len() > 0 {
        lemma_filter_conjoins_pred(s.drop_last(), p, q);
        if p(s.last()) {
            assert(s.filter(p).drop_last() =~= s.drop_last().filter(p));
            assert(s.filter(p).last() == s.last());
        }
    }
}

/// Law: applying the filters of one configuration and then those of another
/// retains the same records as applying them in the opposite order.
pub proof fn lemma_filter_commutative(s: Seq<DiskInfo>, cfg1: Config, cfg2: Config)
    ensures
        filtered_spec(filtered_spec(s, cfg1), cfg2) == filtered_spec(filtered_spec(s, cfg2), cfg1),
{
    let p = |d: DiskInfo| retained(d, cfg1);
    let q = |d: DiskInfo| retained(d, cfg2);
    lemma_filter_conjoins_pred(s, p, q);
    lemma_filter_conjoins_pred(s, q, p);
    lemma_filter_ext(s, |d: DiskInfo| p(d) && q(d), |d: DiskInfo| q(d) && p(d));
}

/// Law: filtering an already-filtered set again with the same
/// configuration is a no-op.
pub proof fn lemma_filter_idempotent(s: Seq<DiskInfo>, cfg: Config)
    ensures
        filtered_spec(filtered_spec(s, cfg), cfg) == filtered_spec(s, cfg),
{
    lemma_filter_idempotent_pred(s, |d: DiskInfo| retained(d, cfg));
}

/// A filter that every record of the sequence survives changes nothing.
proof fn lemma_filter_all_retained_pred(t: Seq<DiskInfo>, p: spec_fn(DiskInfo) -> bool)
    requires
        forall|i: int| 0 <= i < t.len() ==> p(#[trigger] t[i]),
    ensures
        t.filter(p) == t,
    decreases t.len(),
{
    reveal(Seq::filter);
    if t.len() > 0 {
        lemma_filter_all_retained_pred(t.drop_last(), p);
        assert(t.filter(p) =~= t);
    }
}

/// Law: re-applying a filter whose constraints are already enforced by an
/// earlier filter is a no-op on the filtered set.
pub proof fn lemma_filter_subsumed(s: Seq<DiskInfo>, cfg1: Config, cfg2: Config)
    requires
        forall|d: DiskInfo| #[trigger] retained(d, cfg1) ==> retained(d, cfg2),
    ensures
        filtered_spec(filtered_spec(s, cfg1), cfg2) == filtered_spec(s, cfg1),
{
    let p = |d: DiskInfo| retained(d, cfg1);
    let q = |d: DiskInfo| retained(d, cfg2);
    let t = s.filter(p);
    assert forall|i: int| 0 <= i < t.len() implies q(#[trigger] t[i]) by {
        s.lemma_filter_pred(p, i);
    };
    lemma_filter_all_retained_pred(t, q);
}

/// The listing order: records compare by device name, lexicographically.
pub open spec fn name_le(a: DiskInfo, b: DiskInfo) -> bool {
    lex_le(a.device_name@, b.device_name@)
}

/// Device names are non-decreasing along the sequence.
pub open spec fn sorted_by_name(s: Seq<DiskInfo>) -> bool {
    forall|i: int, j: int| 0 <= i < j < s.len() ==> #[trigger] name_le(s[i], s[j])
}

/// Inserting into a sequence adds one copy to its multiset of records.
proof fn lemma_to_multiset_insert(s: Seq<DiskInfo>, i: int, x: DiskInfo)
    requires
        0 <= i <= s.len(),
    ensures
        s.insert(i, x).to_multiset() =~= s.to_multiset().insert(x),
{
    broadcast use vstd::seq_lib::group_to_multiset_ensures;
    broadcast use vstd::multiset::group_multiset_axioms;

    let pre = s.subrange(0, i);
    let post = s.subrange(i, s.len() as int);
    vstd::seq_lib::lemma_multiset_commutative(pre.push(x), post);
    vstd::seq_lib::lemma_multiset_commutative(pre, post);
    assert(s =~= pre + post);
    assert(pre.push(x).to_multiset() =~= pre.to_multiset().insert(x));
}

/// Inserting a record between the ones it belongs after and the ones it
/// belongs before keeps the sequence sorted.
proof fn lemma_sorted_insert(s: Seq<DiskInfo>, j: int, d: DiskInfo)
    requires
        sorted_by_name(s),
        0 <= j <= s.len(),
        forall|k: int| 0 <= k < j ==> name_le(#[trigger] s[k], d),
        forall|k: int| j <= k < s.len() ==> name_le(d, #[trigger] s[k]),
    ensures
        sorted_by_name(s.insert(j, d)),
{
    s.insert_ensures(j, d);
    let t = s.insert(j, d);
    assert forall|p: int, q: int| 0 <= p < q < t.len() implies #[trigger] name_le(t[p], t[q]) by {
        if q < j {
            assert(t[p] == s[p] && t[q] == s[q]);
        } else if q == j {
            assert(t[p] == s[p] && t[q] == d);
        } else if p < j {
            assert(t[p] == s[p] && t[q] == s[q - 1]);
        } else if p == j {
            assert(t[p] == d && t[q] == s[q - 1]);
        } else {
            assert(t[p] == s[p - 1] && t[q] == s[q - 1]);
        }
    };
}

/// Sorts the records into ascending lexicographic order of device name.
/// The result holds exactly the given records.
pub fn sort_devices(disks: Vec<DiskInfo>) -> (r: Vec<DiskInfo>)
    ensures
        sorted_by_name(r@),
        r@.to_multiset() == disks@.to_multiset(),
{
    let mut out: Vec<DiskInfo> = Vec::new();
    let mut i: usize = 0;
    proof {
        broadcast use vstd::seq_lib::group_to_multiset_ensures;

        assert(disks@.take(0) =~= Seq::<DiskInfo>::empty());
        assert(out@ =~= Seq::<DiskInfo>::empty());
    }
    while i < disks.len()
        invariant
            0 <= i <= disks@.len(),
            sorted_by_name(out@),
            out@.to_multiset() == disks@.take(i as int).to_multiset(),
        decreases disks@.len() - i,
    {
        let d = disks[i].clone();
        let mut j: usize = 0;
        while j < out.len() && str_lex_le(out[j].device_name.as_str(), d.device_name.as_str())
            invariant
                0 <= j <= out@.len(),
                forall|k: int| 0 <= k < j ==> name_le(#[trigger] out@[k], d),
            decreases out@.len() - j,
        {
            j = j + 1;
        }
        proof {
            broadcast use vstd::seq_lib::group_to_multiset_ensures;

            if j < out@.len() {
                lemma_lex_total(out@[j as int].device_name@, d.device_name@);
            }
            assert forall|k: int| j <= k < out@.len() implies name_le(d, #[trigger] out@[k]) by {
                if k > j {
                    assert(name_le(out@[j as int], out@[k]));
                }
                lemma_lex_le_trans(
                    d.device_name@,
                    out@[j as int].device_name@,
                    out@[k].device_name@,
                );
            };
            lemma_sorted_insert(out@, j as int, d);
            lemma_to_multiset_insert(out@, j as int, d);
            assert(disks@.take(i + 1) =~= disks@.take(i as int).push(disks@[i as int]));
            assert(disks@.take(i + 1).to_multiset() =~= disks@.take(
                i as int,
            ).to_multiset().insert(d));
        }
        out.insert(j, d);
        i = i + 1;
    }
    proof {
        assert(disks@.take(disks@.len() as int) =~= disks@);
    }
    out
}

/// The device name of every record, in order.
pub fn device_names(disks: &Vec<DiskInfo>) -> (r: Vec<String>)
    ensures
        r@.len() == disks@.len(),
        forall|i: int| 0 <= i < disks@.len() ==> r@[i]@ == disks@[i].device_name@,
{
    let mut out: Vec<String> = Vec::new();
    let mut i: usize = 0;
    while i < disks.len()
        invariant
            0 <= i <= disks@.len(),
            out@.len() == i,
            forall|k: int| 0 <= k < i ==> out@[k]@ == disks@[k].device_name@,
        decreases disks@.len() - i,
    {
        let name = disks[i].device_name.clone();
        out.push(name);
        i = i + 1;
    }
    out
}

/// The outcome of one listing pass.
pub enum Report {
    /// The raw enumeration produced no records at all; nothing is filtered
    /// or rendered.
    NoDisks,
    /// The surviving records, sorted by device name, with one output line
    /// per record.
    Listing { records: Vec<DiskInfo>, lines: Vec<String> },
    /// The exactly-one-match constraint was requested and violated: the
    /// post-filter count and the names of the matching devices, in
    /// enumeration order.
    ExpectOneViolation { count: usize, names: Vec<String> },
}

/// The views of a sequence of names.
pub open spec fn name_views(names: Seq<String>) -> Seq<Seq<char>> {
    names.map_values(|s: String| s@)
}

/// Each name in double quotes, separated by comma and space.
pub open spec fn quoted_list_spec(vs: Seq<Seq<char>>) -> Seq<char>
    decreases vs.len(),
{
    if vs.len() == 0 {
        Seq::empty()
    } else if vs.len() == 1 {
        seq!['"'] + vs[0] + seq!['"']
    } else {
        quoted_list_spec(vs.drop_last()) + seq![',', ' ', '"'] + vs.last() + seq!['"']
    }
}

/// Renders the device names as a quoted, comma-separated list in brackets,
/// exactly as `quoted_list_spec` states.
pub fn quoted_name_list(names: &Vec<String>) -> (r: String)
    ensures
        r@ == seq!['['] + quoted_list_spec(name_views(names@)) + seq![']'],
{
    proof {
        reveal_strlit("[");
        reveal_strlit("]");
        reveal_strlit("\"");
        reveal_strlit(", ");
        assert("["@ =~= seq!['[']);
        assert("]"@ =~= seq![']']);
        assert("\""@ =~= seq!['"']);
        assert(", "@ =~= seq![',', ' ']);
    }
    let ghost vs = name_views(names@);
    let mut out: String = String::new();
    out.append("[");
    let mut i: usize = 0;
    proof {
        assert(vs.take(0) =~= Seq::<Seq<char>>::empty());
        assert(out@ =~= seq!['['] + quoted_list_spec(vs.take(0)));
    }
    while i < names.len()
        invariant
            vs == name_views(names@),
            vs.len() == names@.len(),
            0 <= i <= names@.len(),
            out@ == seq!['['] + quoted_list_spec(vs.take(i as int)),
        decreases names@.len() - i,
    {
        proof {
            reveal_strlit("\"");
            reveal_strlit(", ");
            assert("\""@ =~= seq!['"']);
            assert(", "@ =~= seq![',', ' ']);
        }
        if i > 0 {
            out.append(", ");
        }
        out.append("\"");
        out.append(names[i].as_str());
        out.append("\"");
        proof {
            assert(vs.take(i + 1).drop_last() =~= vs.take(i as int));
            assert(vs.take(i + 1).last() == names@[i as int]@);
            assert(out@ =~= seq!['['] + quoted_list_spec(vs.take(i + 1)));
        }
        i = i + 1;
    }
    out.append("]");
    proof {
        assert(vs.take(names@.len() as int) =~= vs);
    }
    out
}

/// The diagnostic for a violated exactly-one-match constraint: the
/// post-filter count and the quoted names of every matching device.
pub fn cardinality_message(count: usize, names: &Vec<String>) -> (r: String)
    ensures
        r@ == "Expected a single device but "@ + dec_string_spec(count as nat)
            + " were found: "@ + seq!['['] + quoted_list_spec(name_views(names@)) + seq![']'],
{
    let head: &str = "Expected a single device but ";
    let mid: &str = " were found: ";
    let mut msg = head.to_owned();
    let count_text = dec_string(count as u64);
    msg.append(count_text.as_str());
    msg.append(mid);
    let list = quoted_name_list(names);
    msg.append(list.as_str());
    msg
}

/// Runs the presentation pass: filters the records, enforces the
/// exactly-one-match constraint when requested, sorts the survivors by
/// device name and renders one line per record.
///
/// The constraint fires exactly when it is requested and the post-filter
/// count differs from one — whether zero or many — and reports that count
/// with the matching names; the zero-device report precedes filtering.
pub fn list_disk_info(disks: Vec<DiskInfo>, cfg: &Config) -> (r: Report)
    ensures
        disks@.len() == 0 <==> r is NoDisks,
        (disks@.len() > 0 && cfg.expect_one && filtered_spec(disks@, *cfg).len() != 1) <==> r
            is ExpectOneViolation,
        r matches Report::ExpectOneViolation { count, names } ==> {
            &&& count == filtered_spec(disks@, *cfg).len()
            &&& names@.len() == filtered_spec(disks@, *cfg).len()
            &&& forall|i: int|
                0 <= i < names@.len() ==> names@[i]@ == filtered_spec(disks@, *cfg)[i].device_name@
        },
        r matches Report::Listing { records, lines } ==> {
            &&& sorted_by_name(records@)
            &&& records@.to_multiset() == filtered_spec(disks@, *cfg).to_multiset()
            &&& lines@.len() == records@.len()
            &&& forall|i: int|
                0 <= i < records@.len() ==> lines@[i]@ == line_spec(records@[i], cfg.brief)
        },
{
    if disks.len() == 0 {
        return Report::NoDisks;
    }
    let filtered = filter_devices(&disks, cfg);
    if cfg.expect_one && filtered.len() != 1 {
        let count = filtered.len();
        let names = device_names(&filtered);
        return Report::ExpectOneViolation { count, names };
    }
    let records = sort_devices(filtered);
    let lines = render_lines(&records, cfg.brief);
    Report::Listing { records, lines }
}

/// Filters that agree pointwise retain the same records.
proof fn lemma_filter_ext(
    s: Seq<DiskInfo>,
    p: spec_fn(DiskInfo) -> bool,
    q: spec_fn(DiskInfo) -> bool,
)
    requires
        forall|d: DiskInfo| #[trigger] p(d) == #[trigger] q(d),
    ensures
        s.filter(p) == s.filter(q),
    decreases s.len(),
{
    reveal(Seq::filter);
    if s.len() > 0 {
        lemma_filter_ext(s.drop_last(), p, q);
    }
}

} // verus!
