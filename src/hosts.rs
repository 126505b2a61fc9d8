use vstd::prelude::*;
use crate::model::{Policy, PolicyAction, PolicyType};
use crate::text::{chars_contain, chars_of, seq_contains, string_of};

verus! {

broadcast use vstd::seq_lib::group_filter_ensures;

/// Tag carried by every line this library writes into the hosts file.
pub const HOSTS_MARKER: &'static str = "# AssetScan";

/// The lines of a text: split at each `'\n'`, keeping empty lines; a text
/// always has at least one line.
pub open spec fn split_lines(s: Seq<char>) -> Seq<Seq<char>>
    decreases s.len(),
{
    if s.len() == 0 {
        seq![Seq::<char>::empty()]
    } else {
        let prev = split_lines(s.drop_last());
        if s.last() == '\n' {
            prev.push(Seq::<char>::empty())
        } else {
            prev.update(prev.len() - 1, prev.last().push(s.last()))
        }
    }
}

/// Lines joined with `'\n'` between them.
pub open spec fn join_lines(ls: Seq<Seq<char>>) -> Seq<char>
    decreases ls.len(),
{
    if ls.len() == 0 {
        Seq::<char>::empty()
    } else if ls.len() == 1 {
        ls[0]
    } else {
        join_lines(ls.drop_last()) + seq!['\n'] + ls.last()
    }
}

/// A line this library did not write.
pub open spec fn is_unmanaged(line: Seq<char>) -> bool {
    !seq_contains(line, HOSTS_MARKER@)
}

/// An enabled policy that blocks a website.
pub open spec fn is_site_block(p: Policy) -> bool {
    p.enabled && p.policy_type == PolicyType::Website && p.action == PolicyAction::Block
}

pub open spec fn header_line() -> Seq<char> {
    HOSTS_MARKER@ + " - Managed Entries"@
}

pub open spec fn notice_line() -> Seq<char> {
    HOSTS_MARKER@ + ": do not edit this section"@
}

pub open spec fn footer_line() -> Seq<char> {
    HOSTS_MARKER@ + " - End of Managed Entries"@
}

/// `s` without its line breaks, so that it fits on one line.
pub open spec fn one_line(s: Seq<char>) -> Seq<char> {
    s.filter(|c: char| c != '\n')
}

/// The override that points a blocked domain at the loopback address.
pub open spec fn entry_line(p: Policy) -> Seq<char> {
    "127.0.0.1    "@ + one_line(p.target@) + "    "@ + HOSTS_MARKER@ + ": "@ + one_line(p.reason@)
}

/// The managed section for a policy set: header, notice, one override per
/// enabled website block, footer.
pub open spec fn managed_section(ps: Seq<Policy>) -> Seq<Seq<char>> {
    seq![header_line(), notice_line()] + ps.filter(|p: Policy| is_site_block(p)).map_values(
        |p: Policy| entry_line(p),
    ) + seq![footer_line()]
}

/// The hosts file after the website step: the lines this library did not write,
/// then a fresh managed section.
pub open spec fn rewritten_hosts(current: Seq<char>, ps: Seq<Policy>) -> Seq<char> {
    join_lines(unmanaged_lines(current) + managed_section(ps))
}

/// The lines of `current` that this library did not write, in their order.
pub open spec fn unmanaged_lines(current: Seq<char>) -> Seq<Seq<char>> {
    split_lines(current).filter(|l: Seq<char>| is_unmanaged(l))
}

pub open spec fn views(v: Seq<Vec<char>>) -> Seq<Seq<char>> {
    v.map_values(|x: Vec<char>| x@)
}

pub proof fn lemma_split_nonempty(s: Seq<char>)
    ensures
        split_lines(s).len() >= 1,
    decreases s.len(),
{
    if s.len() > 0 {
        lemma_split_nonempty(s.drop_last());
    }
}

fn copy_chars(v: &Vec<char>) -> (r: Vec<char>)
    ensures
        r@ == v@,
{
    let mut out: Vec<char> = Vec::new();
    let mut i: usize = 0;
    while i < v.len()
        invariant
            i <= v@.len(),
            out@ == v@.subrange(0, i as int),
        decreases v@.len() - i,
    {
        out.push(v[i]);
        i = i + 1;
    }
    assert(out@ =~= v@);
    out
}

/// The lines of `s`.
pub(crate) fn split_text(s: &Vec<char>) -> (r: Vec<Vec<char>>)
    ensures
        views(r@) == split_lines(s@),
{
    let mut lines: Vec<Vec<char>> = Vec::new();
    let mut cur: Vec<char> = Vec::new();
    let mut i: usize = 0;
    assert(s@.subrange(0, 0) =~= Seq::<char>::empty());
    assert(views(lines@).push(cur@) =~= split_lines(s@.subrange(0, 0)));
    while i < s.len()
        invariant
            i <= s@.len(),
            views(lines@).push(cur@) == split_lines(s@.subrange(0, i as int)),
        decreases s@.len() - i,
    {
        let c = s[i];
        let ghost pre = s@.subrange(0, i as int);
        proof {
            let s1 = s@.subrange(0, i + 1);
            assert(s1.drop_last() =~= pre);
            assert(s1.last() == c);
            lemma_split_nonempty(pre);
        }
        if c == '\n' {
            let done = cur;
            lines.push(done);
            cur = Vec::new();
            assert(views(lines@) =~= views(lines@.drop_last()).push(done@));
            assert(views(lines@).push(cur@) =~= split_lines(pre).push(Seq::<char>::empty()));
        } else {
            cur.push(c);
            assert(views(lines@).push(cur@) =~= split_lines(pre).update(
                split_lines(pre).len() - 1,
                split_lines(pre).last().push(c),
            ));
        }
        i = i + 1;
    }
    let last = cur;
    lines.push(last);
    assert(views(lines@) =~= views(lines@.drop_last()).push(last@));
    assert(s@.subrange(0, s@.len() as int) =~= s@);
    lines
}

/// The lines of `lines` that this library did not write.
fn drop_managed(lines: &Vec<Vec<char>>, marker: &Vec<char>) -> (r: Vec<Vec<char>>)
    requires
        marker@ == HOSTS_MARKER@,
    ensures
        views(r@) == views(lines@).filter(|l: Seq<char>| is_unmanaged(l)),
{
    let mut kept: Vec<Vec<char>> = Vec::new();
    let mut i: usize = 0;
    while i < lines.len()
        invariant
            marker@ == HOSTS_MARKER@,
            i <= lines@.len(),
            views(kept@) == views(lines@).subrange(0, i as int).filter(|l: Seq<char>| is_unmanaged(l)),
        decreases lines@.len() - i,
    {
        let line = &lines[i];
        proof {
            assert(views(lines@).subrange(0, i + 1) =~= views(lines@).subrange(0, i as int).push(line@));
            views(lines@).subrange(0, i as int).lemma_filter_push(line@, |l: Seq<char>| is_unmanaged(l));
        }
        if !chars_contain(line, marker) {
            let copy = copy_chars(line);
            let ghost before = kept@;
            kept.push(copy);
            assert(views(kept@) =~= views(before).push(line@));
        }
        i = i + 1;
    }
    assert(views(lines@).subrange(0, lines@.len() as int) =~= views(lines@));
    kept
}

/// The characters of `s` without its line breaks.
fn one_line_chars(s: &str) -> (r: Vec<char>)
    ensures
        r@ == one_line(s@),
{
    let cs = chars_of(s);
    let ghost pred = |c: char| c != '\n';
    let mut out: Vec<char> = Vec::new();
    let mut i: usize = 0;
    while i < cs.len()
        invariant
            pred == (|c: char| c != '\n'),
            cs@ == s@,
            i <= cs@.len(),
            out@ == s@.subrange(0, i as int).filter(pred),
        decreases cs@.len() - i,
    {
        let c = cs[i];
        proof {
            assert(s@.subrange(0, i + 1) =~= s@.subrange(0, i as int).push(c));
            s@.subrange(0, i as int).lemma_filter_push(c, pred);
        }
        if c != '\n' {
            out.push(c);
        }
        i = i + 1;
    }
    assert(s@.subrange(0, s@.len() as int) =~= s@);
    out
}

fn concat_chars(mut a: Vec<char>, s: &str) -> (r: Vec<char>)
    ensures
        r@ == a@ + s@,
{
    let mut b = chars_of(s);
    a.append(&mut b);
    a
}

/// The managed section for `policies`.
fn build_section(policies: &Vec<Policy>, marker: &Vec<char>) -> (r: Vec<Vec<char>>)
    requires
        marker@ == HOSTS_MARKER@,
    ensures
        views(r@) == managed_section(policies@),
{
    let mut out: Vec<Vec<char>> = Vec::new();
    out.push(concat_chars(copy_chars(marker), " - Managed Entries"));
    out.push(concat_chars(copy_chars(marker), ": do not edit this section"));
    let ghost head = views(out@);
    assert(head =~= seq![header_line(), notice_line()]);
    let mut i: usize = 0;
    while i < policies.len()
        invariant
            marker@ == HOSTS_MARKER@,
            head == seq![header_line(), notice_line()],
            i <= policies@.len(),
            views(out@) == head + policies@.subrange(0, i as int).filter(|p: Policy| is_site_block(p)).map_values(
                |p: Policy| entry_line(p),
            ),
        decreases policies@.len() - i,
    {
        let p = &policies[i];
        proof {
            assert(policies@.subrange(0, i + 1) =~= policies@.subrange(0, i as int).push(*p));
            policies@.subrange(0, i as int).lemma_filter_push(*p, |q: Policy| is_site_block(q));
        }
        let ghost before = views(out@);
        if p.enabled && p.policy_type == PolicyType::Website && p.action == PolicyAction::Block {
            let mut line = chars_of("127.0.0.1    ");
            let mut t = one_line_chars(p.target.as_str());
            line.append(&mut t);
            line = concat_chars(line, "    ");
            let mut m = copy_chars(marker);
            line.append(&mut m);
            line = concat_chars(line, ": ");
            let mut why = one_line_chars(p.reason.as_str());
            line.append(&mut why);
            out.push(line);
            assert(views(out@) =~= before.push(entry_line(*p)));
            assert(views(out@) =~= head + policies@.subrange(0, i + 1).filter(|q: Policy| is_site_block(q)).map_values(
                |q: Policy| entry_line(q),
            ));
        } else {
            assert(views(out@) =~= head + policies@.subrange(0, i + 1).filter(|q: Policy| is_site_block(q)).map_values(
                |q: Policy| entry_line(q),
            ));
        }
        i = i + 1;
    }
    assert(policies@.subrange(0, policies@.len() as int) =~= policies@);
    let ghost body = views(out@);
    out.push(concat_chars(copy_chars(marker), " - End of Managed Entries"));
    assert(views(out@) =~= body.push(footer_line()));
    assert(views(out@) =~= managed_section(policies@));
    out
}

/// Lines joined with `'\n'`.
fn join_text(lines: &Vec<Vec<char>>) -> (r: Vec<char>)
    ensures
        r@ == join_lines(views(lines@)),
{
    let mut out: Vec<char> = Vec::new();
    let mut i: usize = 0;
    while i < lines.len()
        invariant
            i <= lines@.len(),
            out@ == join_lines(views(lines@).subrange(0, i as int)),
        decreases lines@.len() - i,
    {
        let ghost sub = views(lines@).subrange(0, i + 1);
        proof {
            assert(sub.drop_last() =~= views(lines@).subrange(0, i as int));
            assert(sub.last() == lines@[i as int]@);
        }
        if i > 0 {
            out.push('\n');
        }
        let mut line = copy_chars(&lines[i]);
        out.append(&mut line);
        proof {
            if i == 0 {
                assert(out@ =~= sub[0]);
            } else {
                assert(out@ =~= join_lines(views(lines@).subrange(0, i as int)) + seq!['\n'] + sub.last());
            }
        }
        i = i + 1;
    }
    assert(views(lines@).subrange(0, lines@.len() as int) =~= views(lines@));
    out
}

/// The website step: removes every line that carries the marker, then appends
/// a managed section with one loopback override per enabled website block.
pub fn rewrite_hosts(current: &str, policies: &Vec<Policy>) -> (r: String)
    ensures
        r@ == rewritten_hosts(current@, policies@),
{
    let marker = chars_of(HOSTS_MARKER);
    let text = chars_of(current);
    let lines = split_text(&text);
    let mut kept = drop_managed(&lines, &marker);
    let mut section = build_section(policies, &marker);
    let ghost k = views(kept@);
    let ghost m = views(section@);
    kept.append(&mut section);
    assert(views(kept@) =~= k + m);
    let joined = join_text(&kept);
    string_of(&joined)
}

/// A line without a line break in it.
pub open spec fn no_newline(x: Seq<char>) -> bool {
    forall|k: int| 0 <= k < x.len() ==> x[k] != '\n'
}

proof fn lemma_no_newline_concat(a: Seq<char>, b: Seq<char>)
    requires
        no_newline(a),
        no_newline(b),
    ensures
        no_newline(a + b),
{
    assert forall|k: int| 0 <= k < (a + b).len() implies (a + b)[k] != '\n' by {
        if k < a.len() {
            assert((a + b)[k] == a[k]);
        } else {
            assert((a + b)[k] == b[k - a.len()]);
        }
    }
}

proof fn lemma_split_lines_clean(s: Seq<char>)
    ensures
        split_lines(s).len() >= 1,
        forall|k: int| 0 <= k < split_lines(s).len() ==> no_newline(#[trigger] split_lines(s)[k]),
    decreases s.len(),
{
    if s.len() > 0 {
        lemma_split_lines_clean(s.drop_last());
        let prev = split_lines(s.drop_last());
        if s.last() != '\n' {
            let l = prev.last().push(s.last());
            assert(no_newline(prev[prev.len() - 1]));
            assert forall|k: int| 0 <= k < l.len() implies l[k] != '\n' by {
                if k < prev.last().len() {
                    assert(l[k] == prev.last()[k]);
                }
            }
            assert forall|k: int| 0 <= k < split_lines(s).len() implies no_newline(#[trigger] split_lines(s)[k]) by {
                if k < prev.len() - 1 {
                    assert(split_lines(s)[k] == prev[k]);
                }
            }
        } else {
            assert forall|k: int| 0 <= k < split_lines(s).len() implies no_newline(#[trigger] split_lines(s)[k]) by {
                if k < prev.len() {
                    assert(split_lines(s)[k] == prev[k]);
                }
            }
        }
    }
}

proof fn lemma_split_single(x: Seq<char>)
    requires
        no_newline(x),
    ensures
        split_lines(x) == seq![x],
    decreases x.len(),
{
    if x.len() == 0 {
        assert(x =~= Seq::<char>::empty());
        assert(split_lines(x) =~= seq![x]);
    } else {
        let init = x.drop_last();
        assert(no_newline(init)) by {
            assert forall|k: int| 0 <= k < init.len() implies init[k] != '\n' by {
                assert(init[k] == x[k]);
            }
        }
        lemma_split_single(init);
        assert(x.last() == x[x.len() - 1]);
        assert(x.last() != '\n');
        assert(x.drop_last() == init);
        let prev = split_lines(init);
        assert(prev.len() == 1);
        assert(split_lines(x) == prev.update(prev.len() - 1, prev.last().push(x.last())));
        assert(init.push(x.last()) =~= x);
        assert(split_lines(x) =~= seq![x]);
    }
}

proof fn lemma_split_after_newline(a: Seq<char>, b: Seq<char>)
    requires
        no_newline(b),
    ensures
        split_lines(a + seq!['\n'] + b) == split_lines(a).push(b),
    decreases b.len(),
{
    let t = a + seq!['\n'] + b;
    if b.len() == 0 {
        assert(b =~= Seq::<char>::empty());
        assert(t.drop_last() =~= a);
        assert(t.last() == '\n');
        assert(split_lines(t) =~= split_lines(a).push(b));
    } else {
        let init = b.drop_last();
        assert(no_newline(init)) by {
            assert forall|k: int| 0 <= k < init.len() implies init[k] != '\n' by {
                assert(init[k] == b[k]);
            }
        }
        lemma_split_after_newline(a, init);
        assert(t.drop_last() =~= a + seq!['\n'] + init);
        assert(t.last() == b[b.len() - 1]);
        assert(t.last() != '\n');
        let prev = split_lines(a + seq!['\n'] + init);
        assert(prev == split_lines(a).push(init));
        assert(split_lines(t) == prev.update(prev.len() - 1, prev.last().push(t.last())));
        assert(init.push(b.last()) =~= b);
        assert(split_lines(t) =~= split_lines(a).push(b));
    }
}

/// Splitting undoes joining, for lines without line breaks.
pub proof fn lemma_split_join(ls: Seq<Seq<char>>)
    requires
        ls.len() >= 1,
        forall|k: int| 0 <= k < ls.len() ==> no_newline(#[trigger] ls[k]),
    ensures
        split_lines(join_lines(ls)) == ls,
    decreases ls.len(),
{
    if ls.len() == 1 {
        lemma_split_single(ls[0]);
        assert(ls =~= seq![ls[0]]);
    } else {
        let init = ls.drop_last();
        assert forall|k: int| 0 <= k < init.len() implies no_newline(#[trigger] init[k]) by {
            assert(init[k] == ls[k]);
        }
        lemma_split_join(init);
        assert(no_newline(ls[ls.len() - 1]));
        lemma_split_after_newline(join_lines(init), ls.last());
        assert(init.push(ls.last()) =~= ls);
    }
}

proof fn lemma_filter_keeps_all<A>(s: Seq<A>, pred: spec_fn(A) -> bool)
    requires
        forall|k: int| 0 <= k < s.len() ==> pred(#[trigger] s[k]),
    ensures
        s.filter(pred) == s,
    decreases s.len(),
{
    reveal(Seq::filter);
    if s.len() > 0 {
        let init = s.drop_last();
        assert forall|k: int| 0 <= k < init.len() implies pred(#[trigger] init[k]) by {
            assert(init[k] == s[k]);
        }
        lemma_filter_keeps_all(init, pred);
        assert(pred(s[s.len() - 1]));
        assert(init.push(s.last()) =~= s);
    }
}

proof fn lemma_filter_keeps_none<A>(s: Seq<A>, pred: spec_fn(A) -> bool)
    requires
        forall|k: int| 0 <= k < s.len() ==> !pred(#[trigger] s[k]),
    ensures
        s.filter(pred) == Seq::<A>::empty(),
    decreases s.len(),
{
    reveal(Seq::filter);
    if s.len() > 0 {
        let init = s.drop_last();
        assert forall|k: int| 0 <= k < init.len() implies !pred(#[trigger] init[k]) by {
            assert(init[k] == s[k]);
        }
        lemma_filter_keeps_none(init, pred);
        assert(!pred(s[s.len() - 1]));
    }
}

proof fn lemma_marked(pre: Seq<char>, post: Seq<char>)
    ensures
        seq_contains(pre + HOSTS_MARKER@ + post, HOSTS_MARKER@),
{
    let l = pre + HOSTS_MARKER@ + post;
    assert(l.subrange(pre.len() as int, pre.len() + HOSTS_MARKER@.len() as int) =~= HOSTS_MARKER@);
    assert(crate::text::occurs_at(l, HOSTS_MARKER@, pre.len() as int));
}

proof fn lemma_one_line_clean(s: Seq<char>)
    ensures
        no_newline(one_line(s)),
{
    let pred = |c: char| c != '\n';
    assert forall|k: int| 0 <= k < one_line(s).len() implies one_line(s)[k] != '\n' by {
        s.lemma_filter_pred(pred, k);
    }
}

/// Every line of a managed section carries the marker and has no line break.
proof fn lemma_section_lines(ps: Seq<Policy>)
    ensures
        managed_section(ps).len() >= 3,
        forall|k: int| 0 <= k < managed_section(ps).len() ==> no_newline(#[trigger] managed_section(ps)[k]),
        forall|k: int| 0 <= k < managed_section(ps).len() ==> !is_unmanaged(#[trigger] managed_section(ps)[k]),
{
    reveal_strlit("# AssetScan");
    reveal_strlit(" - Managed Entries");
    reveal_strlit(": do not edit this section");
    reveal_strlit(" - End of Managed Entries");
    reveal_strlit("127.0.0.1    ");
    reveal_strlit("    ");
    reveal_strlit(": ");
    let f = ps.filter(|p: Policy| is_site_block(p));
    let e = f.map_values(|p: Policy| entry_line(p));
    let m = managed_section(ps);
    assert(no_newline(HOSTS_MARKER@));
    assert(no_newline(" - Managed Entries"@));
    assert(no_newline(": do not edit this section"@));
    assert(no_newline(" - End of Managed Entries"@));
    assert(no_newline("127.0.0.1    "@));
    assert(no_newline("    "@));
    assert(no_newline(": "@));
    assert forall|k: int| 0 <= k < m.len() implies no_newline(#[trigger] m[k]) && !is_unmanaged(m[k]) by {
        if k == 0 {
            assert(m[k] == header_line());
            lemma_no_newline_concat(HOSTS_MARKER@, " - Managed Entries"@);
            lemma_marked(Seq::<char>::empty(), " - Managed Entries"@);
            assert(Seq::<char>::empty() + HOSTS_MARKER@ + " - Managed Entries"@ =~= header_line());
        } else if k == 1 {
            assert(m[k] == notice_line());
            lemma_no_newline_concat(HOSTS_MARKER@, ": do not edit this section"@);
            lemma_marked(Seq::<char>::empty(), ": do not edit this section"@);
            assert(Seq::<char>::empty() + HOSTS_MARKER@ + ": do not edit this section"@ =~= notice_line());
        } else if k == m.len() - 1 {
            assert(m[k] == footer_line());
            lemma_no_newline_concat(HOSTS_MARKER@, " - End of Managed Entries"@);
            lemma_marked(Seq::<char>::empty(), " - End of Managed Entries"@);
            assert(Seq::<char>::empty() + HOSTS_MARKER@ + " - End of Managed Entries"@ =~= footer_line());
        } else {
            let j = k - 2;
            assert(m[k] == e[j]);
            let p = f[j];
            assert(e[j] == entry_line(p));
            let target = one_line(p.target@);
            let reason = one_line(p.reason@);
            lemma_one_line_clean(p.target@);
            lemma_one_line_clean(p.reason@);
            let pre = "127.0.0.1    "@ + target + "    "@;
            let post = ": "@ + reason;
            lemma_no_newline_concat("127.0.0.1    "@, target);
            lemma_no_newline_concat("127.0.0.1    "@ + target, "    "@);
            lemma_no_newline_concat(pre, HOSTS_MARKER@);
            lemma_no_newline_concat(": "@, reason);
            lemma_no_newline_concat(pre + HOSTS_MARKER@, post);
            lemma_marked(pre, post);
            assert(pre + HOSTS_MARKER@ + post =~= entry_line(p));
        }
    }
}

/// The lines of the rewritten file: the lines this library did not write, in
/// their order, then one managed section.
pub proof fn lemma_rewrite_lines(current: Seq<char>, ps: Seq<Policy>)
    ensures
        split_lines(rewritten_hosts(current, ps)) == unmanaged_lines(current) + managed_section(ps),
        forall|k: int| 0 <= k < unmanaged_lines(current).len() ==> is_unmanaged(#[trigger] unmanaged_lines(current)[k]),
{
    let pred = |l: Seq<char>| is_unmanaged(l);
    let lines = split_lines(current);
    let u = lines.filter(pred);
    let m = managed_section(ps);
    let l = u + m;
    lemma_split_lines_clean(current);
    lemma_section_lines(ps);
    assert forall|k: int| 0 <= k < u.len() implies no_newline(#[trigger] u[k]) && pred(u[k]) by {
        lines.lemma_filter_pred(pred, k);
        assert(u.contains(u[k]));
        lines.lemma_filter_contains_rev(pred, u[k]);
        let i = choose|i: int| 0 <= i < lines.len() && lines[i] == u[k];
        assert(no_newline(lines[i]));
    }
    assert forall|k: int| 0 <= k < l.len() implies no_newline(#[trigger] l[k]) by {
        if k < u.len() {
            assert(l[k] == u[k]);
        } else {
            assert(l[k] == m[k - u.len()]);
        }
    }
    lemma_split_join(l);
}

/// The website step is idempotent: run twice with the same policies, it gives
/// the same file as run once, so entries never pile up or drift.
pub proof fn lemma_rewrite_idempotent(current: Seq<char>, ps: Seq<Policy>)
    ensures
        rewritten_hosts(rewritten_hosts(current, ps), ps) == rewritten_hosts(current, ps),
{
    let pred = |l: Seq<char>| is_unmanaged(l);
    let u = split_lines(current).filter(pred);
    let m = managed_section(ps);
    lemma_rewrite_lines(current, ps);
    lemma_section_lines(ps);
    Seq::filter_distributes_over_add(u, m, pred);
    lemma_filter_keeps_all(u, pred);
    lemma_filter_keeps_none(m, pred);
    assert(u + Seq::<Seq<char>>::empty() =~= u);
}

pub open spec fn is_header(l: Seq<char>) -> bool {
    l == header_line()
}

/// The rewritten file holds the managed-section header exactly once.
pub proof fn lemma_single_header(current: Seq<char>, ps: Seq<Policy>)
    ensures
        split_lines(rewritten_hosts(current, ps)).filter(|l: Seq<char>| is_header(l)).len() == 1,
{
    reveal_strlit("# AssetScan");
    reveal_strlit(" - Managed Entries");
    reveal_strlit(": do not edit this section");
    reveal_strlit(" - End of Managed Entries");
    reveal_strlit("127.0.0.1    ");
    let hp = |l: Seq<char>| is_header(l);
    let up = |l: Seq<char>| is_unmanaged(l);
    let u = split_lines(current).filter(up);
    let f = ps.filter(|p: Policy| is_site_block(p));
    let e = f.map_values(|p: Policy| entry_line(p));
    lemma_rewrite_lines(current, ps);
    lemma_section_lines(ps);
    let h = header_line();
    assert(h[0] == '#');
    assert(h[11] == ' ');
    assert(h[14] == 'M');
    assert(!is_unmanaged(h)) by {
        lemma_marked(Seq::<char>::empty(), " - Managed Entries"@);
        assert(Seq::<char>::empty() + HOSTS_MARKER@ + " - Managed Entries"@ =~= h);
    }
    assert forall|k: int| 0 <= k < u.len() implies !hp(#[trigger] u[k]) by {}
    assert(notice_line()[11] == ':');
    assert(footer_line()[14] == 'E');
    assert forall|k: int| 0 <= k < e.len() implies !hp(#[trigger] e[k]) by {
        assert(e[k] == entry_line(f[k]));
        assert(entry_line(f[k])[0] == '1');
    }
    let rest = seq![notice_line()] + e + seq![footer_line()];
    assert forall|k: int| 0 <= k < rest.len() implies !hp(#[trigger] rest[k]) by {
        if k == 0 {
            assert(rest[k] == notice_line());
        } else if k == rest.len() - 1 {
            assert(rest[k] == footer_line());
        } else {
            assert(rest[k] == e[k - 1]);
        }
    }
    assert(managed_section(ps) =~= seq![h] + rest);
    Seq::filter_distributes_over_add(u, managed_section(ps), hp);
    Seq::filter_distributes_over_add(seq![h], rest, hp);
    lemma_filter_keeps_none(u, hp);
    lemma_filter_keeps_none(rest, hp);
    lemma_filter_keeps_all(seq![h], hp);
}

} // verus!
