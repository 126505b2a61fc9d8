use vstd::prelude::*;
use crate::model::SoftwareEntry;
use crate::text::chars_of;
use vstd::string::StrSliceExecFns;

verus! {

/// Code-point lexicographic order on names, the order of Rust's `str` comparison.
#[verifier::opaque]
pub open spec fn name_lt(a: Seq<char>, b: Seq<char>) -> bool
    decreases a.len(),
{
    if a.len() == 0 {
        b.len() > 0
    } else if b.len() == 0 {
        false
    } else if a[0] != b[0] {
        a[0] < b[0]
    } else {
        name_lt(a.subrange(1, a.len() as int), b.subrange(1, b.len() as int))
    }
}

pub proof fn lemma_lt_irreflexive(a: Seq<char>)
    ensures
        !name_lt(a, a),
    decreases a.len(),
{
    reveal(name_lt);
    if a.len() > 0 {
        lemma_lt_irreflexive(a.subrange(1, a.len() as int));
    }
}

pub proof fn lemma_lt_transitive(a: Seq<char>, b: Seq<char>, c: Seq<char>)
    requires
        name_lt(a, b),
        name_lt(b, c),
    ensures
        name_lt(a, c),
    decreases a.len(),
{
    reveal(name_lt);
    if a.len() > 0 && b.len() > 0 && c.len() > 0 {
        if a[0] == b[0] && b[0] == c[0] {
            lemma_lt_transitive(
                a.subrange(1, a.len() as int),
                b.subrange(1, b.len() as int),
                c.subrange(1, c.len() as int),
            );
        }
    }
}

pub proof fn lemma_lt_total(a: Seq<char>, b: Seq<char>)
    requires
        a != b,
    ensures
        name_lt(a, b) || name_lt(b, a),
    decreases a.len(),
{
    reveal(name_lt);
    if a.len() > 0 && b.len() > 0 && a[0] == b[0] {
        let a1 = a.subrange(1, a.len() as int);
        let b1 = b.subrange(1, b.len() as int);
        if a1 == b1 {
            assert(a =~= seq![a[0]] + a1);
            assert(b =~= seq![b[0]] + b1);
        }
        lemma_lt_total(a1, b1);
    } else if a.len() == 0 && b.len() == 0 {
        assert(a =~= b);
    }
}

/// Whether `a` sorts before `b`.
pub(crate) fn chars_less(a: &Vec<char>, b: &Vec<char>) -> (r: bool)
    ensures
        r == name_lt(a@, b@),
{
    reveal(name_lt);
    let mut i: usize = 0;
    assert(a@.subrange(0, a@.len() as int) =~= a@);
    assert(b@.subrange(0, b@.len() as int) =~= b@);
    while i < a.len() && i < b.len() && a[i] == b[i]
        invariant
            i <= a@.len(),
            i <= b@.len(),
            a@.subrange(0, i as int) == b@.subrange(0, i as int),
            name_lt(a@, b@) == name_lt(a@.subrange(i as int, a@.len() as int), b@.subrange(i as int, b@.len() as int)),
        decreases a@.len() - i,
    {
        proof {
            reveal(name_lt);
            let ra = a@.subrange(i as int, a@.len() as int);
            let rb = b@.subrange(i as int, b@.len() as int);
            assert(ra.subrange(1, ra.len() as int) =~= a@.subrange(i + 1, a@.len() as int));
            assert(rb.subrange(1, rb.len() as int) =~= b@.subrange(i + 1, b@.len() as int));
            assert(a@.subrange(0, i + 1) =~= a@.subrange(0, i as int).push(a@[i as int]));
            assert(b@.subrange(0, i + 1) =~= b@.subrange(0, i as int).push(b@[i as int]));
        }
        i = i + 1;
    }
    let ghost ra = a@.subrange(i as int, a@.len() as int);
    let ghost rb = b@.subrange(i as int, b@.len() as int);
    if i == a.len() {
        i < b.len()
    } else if i == b.len() {
        false
    } else {
        proof {
            assert(ra[0] == a@[i as int]);
            assert(rb[0] == b@[i as int]);
        }
        a[i] < b[i]
    }
}

/// Names strictly increase along `ss`: sorted, one entry per name.
pub open spec fn sorted_unique(ss: Seq<SoftwareEntry>) -> bool {
    forall|i: int, j: int| 0 <= i < j < ss.len() ==> name_lt(ss[i].name@, ss[j].name@)
}

/// `list[t]` is the first entry of `list` with its name.
pub open spec fn first_of_name(list: Seq<SoftwareEntry>, t: int) -> bool {
    &&& 0 <= t < list.len()
    &&& forall|j: int| 0 <= j < t ==> list[j].name@ != list[t].name@
}

/// Some entry of `out` has name `name`.
pub open spec fn has_name_in(out: Seq<SoftwareEntry>, name: Seq<char>) -> bool {
    exists|k: int| 0 <= k < out.len() && out[k].name@ == name
}

/// `e` is the first entry of `list` with its name.
pub open spec fn is_first_entry(list: Seq<SoftwareEntry>, e: SoftwareEntry) -> bool {
    exists|t: int| first_of_name(list, t) && e == list[t]
}

/// `out` is `list` sorted by name, keeping the first entry of each name.
pub open spec fn dedup_of(out: Seq<SoftwareEntry>, list: Seq<SoftwareEntry>) -> bool {
    &&& sorted_unique(out)
    &&& forall|t: int| 0 <= t < list.len() ==> has_name_in(out, (#[trigger] list[t]).name@)
    &&& forall|k: int| 0 <= k < out.len() ==> is_first_entry(list, #[trigger] out[k])
}

fn copy_entry(s: &SoftwareEntry) -> (r: SoftwareEntry)
    ensures
        r == *s,
{
    SoftwareEntry {
        name: s.name.clone(),
        version: s.version.clone(),
        publisher: s.publisher.clone(),
        install_date: s.install_date.clone(),
    }
}

/// The loop state of deduplication, with witnesses: `src[k]` is the listed
/// entry that `out[k]` is, and `pos[t]` is where the name of `sub[t]` stands in `out`.
pub open spec fn dedup_state(out: Seq<SoftwareEntry>, sub: Seq<SoftwareEntry>, src: Seq<int>, pos: Seq<int>) -> bool {
    &&& sorted_unique(out)
    &&& src.len() == out.len()
    &&& forall|k: int| 0 <= k < out.len() ==> first_of_name(sub, #[trigger] src[k]) && out[k] == sub[src[k]]
    &&& pos.len() == sub.len()
    &&& forall|t: int| 0 <= t < sub.len() ==> 0 <= #[trigger] pos[t] < out.len() && out[pos[t]].name@ == sub[t].name@
}

pub open spec fn shifted(pos: Seq<int>, p: int) -> Seq<int> {
    pos.map_values(|v: int| if v >= p { v + 1 } else { v })
}

proof fn lemma_dup_step(
    out: Seq<SoftwareEntry>,
    sub: Seq<SoftwareEntry>,
    x: SoftwareEntry,
    p: int,
    src: Seq<int>,
    pos: Seq<int>,
)
    requires
        dedup_state(out, sub, src, pos),
        0 <= p < out.len(),
        out[p].name@ == x.name@,
    ensures
        dedup_state(out, sub.push(x), src, pos.push(p)),
{
    let sub1 = sub.push(x);
    let pos1 = pos.push(p);
    assert forall|k: int| 0 <= k < out.len() implies first_of_name(sub1, #[trigger] src[k]) && out[k] == sub1[src[k]] by {
        let t = src[k];
        assert(first_of_name(sub, t));
        assert forall|j: int| 0 <= j < t implies sub1[j].name@ != sub1[t].name@ by {
            assert(sub1[j] == sub[j]);
        }
    }
    assert forall|t: int| 0 <= t < sub1.len() implies 0 <= #[trigger] pos1[t] < out.len() && out[pos1[t]].name@
        == sub1[t].name@ by {
        if t < sub.len() {
            assert(pos1[t] == pos[t]);
        }
    }
}

proof fn lemma_insert_step(
    out: Seq<SoftwareEntry>,
    sub: Seq<SoftwareEntry>,
    x: SoftwareEntry,
    p: int,
    src: Seq<int>,
    pos: Seq<int>,
)
    requires
        dedup_state(out, sub, src, pos),
        0 <= p <= out.len(),
        forall|k: int| 0 <= k < p ==> name_lt((#[trigger] out[k]).name@, x.name@),
        p < out.len() ==> out[p].name@ != x.name@ && !name_lt(out[p].name@, x.name@),
    ensures
        dedup_state(out.insert(p, x), sub.push(x), src.insert(p, sub.len() as int), shifted(pos, p).push(p)),
{
    let sub1 = sub.push(x);
    let n = out.insert(p, x);
    let src1 = src.insert(p, sub.len() as int);
    let pos1 = shifted(pos, p).push(p);
    if p < out.len() {
        lemma_lt_total(out[p].name@, x.name@);
    }
    lemma_lt_irreflexive(x.name@);
    assert forall|k: int| 0 <= k < out.len() implies (#[trigger] out[k]).name@ != x.name@ by {
        if k > p {
            lemma_lt_transitive(x.name@, out[p].name@, out[k].name@);
        }
    }
    assert forall|j: int| p <= j < out.len() implies name_lt(x.name@, (#[trigger] out[j]).name@) by {
        if j > p {
            lemma_lt_transitive(x.name@, out[p].name@, out[j].name@);
        }
    }
    assert forall|a: int, b: int| 0 <= a < b < n.len() implies name_lt(n[a].name@, n[b].name@) by {
        if b < p {
            assert(n[a] == out[a] && n[b] == out[b]);
        } else if b == p {
            assert(n[a] == out[a]);
        } else if a < p {
            assert(n[a] == out[a] && n[b] == out[b - 1]);
            lemma_lt_transitive(out[a].name@, x.name@, out[b - 1].name@);
        } else if a == p {
            assert(n[b] == out[b - 1]);
            if b - 1 > p {
                lemma_lt_transitive(x.name@, out[p].name@, out[b - 1].name@);
            }
        } else {
            assert(n[a] == out[a - 1] && n[b] == out[b - 1]);
        }
    }
    assert forall|k: int| 0 <= k < n.len() implies first_of_name(sub1, #[trigger] src1[k]) && n[k] == sub1[src1[k]] by {
        if k == p {
            assert forall|j: int| 0 <= j < sub.len() implies (#[trigger] sub1[j]).name@ != sub1[sub.len() as int].name@ by {
                assert(sub1[j] == sub[j]);
                assert(out[pos[j]].name@ == sub[j].name@);
            }
        } else {
            let ko = if k < p { k } else { k - 1 };
            assert(n[k] == out[ko] && src1[k] == src[ko]);
            let t = src[ko];
            assert(first_of_name(sub, t));
            assert forall|j: int| 0 <= j < t implies sub1[j].name@ != sub1[t].name@ by {
                assert(sub1[j] == sub[j]);
            }
        }
    }
    assert forall|t: int| 0 <= t < sub1.len() implies 0 <= #[trigger] pos1[t] < n.len() && n[pos1[t]].name@
        == sub1[t].name@ by {
        if t < sub.len() {
            let v = pos[t];
            assert(pos1[t] == if v >= p { v + 1 } else { v });
            if v >= p {
                assert(n[v + 1] == out[v]);
            } else {
                assert(n[v] == out[v]);
            }
        }
    }
}

proof fn lemma_state_gives_dedup(out: Seq<SoftwareEntry>, list: Seq<SoftwareEntry>, src: Seq<int>, pos: Seq<int>)
    requires
        dedup_state(out, list, src, pos),
    ensures
        dedup_of(out, list),
{
    assert forall|t: int| 0 <= t < list.len() implies has_name_in(out, (#[trigger] list[t]).name@) by {
        assert(0 <= pos[t] < out.len() && out[pos[t]].name@ == list[t].name@);
    }
    assert forall|k: int| 0 <= k < out.len() implies is_first_entry(list, #[trigger] out[k]) by {
        assert(first_of_name(list, src[k]) && out[k] == list[src[k]]);
    }
}

/// `list` sorted by name, one entry per name: the first one listed.
fn sort_unique(list: &Vec<SoftwareEntry>) -> (r: Vec<SoftwareEntry>)
    ensures
        dedup_of(r@, list@),
{
    let mut out: Vec<SoftwareEntry> = Vec::new();
    let mut names: Vec<Vec<char>> = Vec::new();
    let ghost mut src: Seq<int> = Seq::empty();
    let ghost mut pos: Seq<int> = Seq::empty();
    let mut i: usize = 0;
    assert(list@.subrange(0, 0) =~= Seq::<SoftwareEntry>::empty());
    while i < list.len()
        invariant
            i <= list@.len(),
            names@.len() == out@.len(),
            forall|k: int| 0 <= k < out@.len() ==> (#[trigger] names@[k])@ == out@[k].name@,
            dedup_state(out@, list@.subrange(0, i as int), src, pos),
        decreases list@.len() - i,
    {
        let x = &list[i];
        let ghost sub = list@.subrange(0, i as int);
        let xn = chars_of(x.name.as_str());
        let mut p: usize = 0;
        while p < out.len() && chars_less(&names[p], &xn)
            invariant
                p <= out@.len(),
                names@.len() == out@.len(),
                forall|k: int| 0 <= k < out@.len() ==> (#[trigger] names@[k])@ == out@[k].name@,
                xn@ == x.name@,
                forall|k: int| 0 <= k < p ==> name_lt((#[trigger] out@[k]).name@, x.name@),
            decreases out@.len() - p,
        {
            p = p + 1;
        }
        if p < out.len() && out[p].name == x.name {
            proof {
                lemma_dup_step(out@, sub, *x, p as int, src, pos);
                pos = pos.push(p as int);
            }
        } else {
            proof {
                lemma_insert_step(out@, sub, *x, p as int, src, pos);
                src = src.insert(p as int, sub.len() as int);
                pos = shifted(pos, p as int).push(p as int);
            }
            let ghost old_out = out@;
            let ghost old_names = names@;
            out.insert(p, copy_entry(x));
            names.insert(p, xn);
            assert forall|k: int| 0 <= k < out@.len() implies (#[trigger] names@[k])@ == out@[k].name@ by {
                if k < p {
                    assert(names@[k] == old_names[k] && out@[k] == old_out[k]);
                } else if k > p {
                    assert(names@[k] == old_names[k - 1] && out@[k] == old_out[k - 1]);
                }
            }
        }
        assert(list@.subrange(0, i + 1) =~= sub.push(*x));
        i = i + 1;
    }
    assert(list@.subrange(0, list@.len() as int) =~= list@);
    proof {
        lemma_state_gives_dedup(out@, list@, src, pos);
    }
    out
}

/// An entry that names a program.
pub open spec fn named(s: SoftwareEntry) -> bool {
    s.name@.len() > 0
}

/// The installed programs sorted by name, one entry per name, the first one
/// listed; entries without a name are dropped.
pub fn dedup_software(list: &Vec<SoftwareEntry>) -> (r: Vec<SoftwareEntry>)
    ensures
        dedup_of(r@, list@.filter(|s: SoftwareEntry| named(s))),
{
    broadcast use vstd::seq_lib::group_filter_ensures;

    let ghost pred = |s: SoftwareEntry| named(s);
    let mut kept: Vec<SoftwareEntry> = Vec::new();
    let mut i: usize = 0;
    while i < list.len()
        invariant
            pred == (|s: SoftwareEntry| named(s)),
            i <= list@.len(),
            kept@ == list@.subrange(0, i as int).filter(pred),
        decreases list@.len() - i,
    {
        let x = &list[i];
        proof {
            assert(list@.subrange(0, i + 1) =~= list@.subrange(0, i as int).push(*x));
            list@.subrange(0, i as int).lemma_filter_push(*x, pred);
        }
        if x.name.as_str().unicode_len() > 0 {
            kept.push(copy_entry(x));
        }
        i = i + 1;
    }
    assert(list@.subrange(0, list@.len() as int) =~= list@);
    sort_unique(&kept)
}

} // verus!
