//! The registry data model: a manifest (`Command`) names an ordered sequence
//! of entries (`SubCommand`), each with an invocation text, a description and
//! an optional list of placeholders.
//!
//! Two entries are equal exactly when every field matches; this full-value
//! equality is what drives the diff between two registry snapshots.

use vstd::prelude::*;
use vstd::string::StringExecFns;

verus! {

/// One placeholder of an entry's invocation text.
#[derive(Debug, Eq)]
pub struct Placeholder {
    pub name: String,
    pub description: String,
}

/// One command definition: the unit that is indexed for search.
#[derive(Debug, Eq)]
pub struct SubCommand {
    pub command: String,
    pub description: String,
    pub placeholders: Option<Vec<Placeholder>>,
}

/// One manifest: a named, ordered sequence of entries.  One manifest
/// corresponds to one registry file.
#[derive(Debug, Eq)]
pub struct Command {
    pub name: String,
    pub commands: Vec<SubCommand>,
}

/// The mathematical value of a `Placeholder`.
#[verifier::ext_equal]
pub struct PlaceholderView {
    pub name: Seq<char>,
    pub description: Seq<char>,
}

/// The mathematical value of a `SubCommand`.
#[verifier::ext_equal]
pub struct SubCommandView {
    pub command: Seq<char>,
    pub description: Seq<char>,
    pub placeholders: Option<Seq<PlaceholderView>>,
}

/// The mathematical value of a `Command`.
#[verifier::ext_equal]
pub struct CommandView {
    pub name: Seq<char>,
    pub commands: Seq<SubCommandView>,
}

impl View for Placeholder {
    type V = PlaceholderView;

    open spec fn view(&self) -> PlaceholderView {
        PlaceholderView { name: self.name@, description: self.description@ }
    }
}

/// The values of a sequence of placeholders.
pub open spec fn placeholders_view(ps: Seq<Placeholder>) -> Seq<PlaceholderView> {
    ps.map_values(|p: Placeholder| p@)
}

impl View for SubCommand {
    type V = SubCommandView;

    open spec fn view(&self) -> SubCommandView {
        SubCommandView {
            command: self.command@,
            description: self.description@,
            placeholders: match self.placeholders {
                Option::Some(ps) => Option::Some(placeholders_view(ps@)),
                Option::None => Option::None,
            },
        }
    }
}

/// The values of a sequence of entries.
pub open spec fn entries_view(cs: Seq<SubCommand>) -> Seq<SubCommandView> {
    cs.map_values(|c: SubCommand| c@)
}

impl View for Command {
    type V = CommandView;

    open spec fn view(&self) -> CommandView {
        CommandView { name: self.name@, commands: entries_view(self.commands@) }
    }
}

impl Clone for Placeholder {
    fn clone(&self) -> (r: Self)
        ensures
            r == *self,
    {
        Placeholder { name: self.name.clone(), description: self.description.clone() }
    }
}

fn clone_placeholders(ps: &Vec<Placeholder>) -> (r: Vec<Placeholder>)
    ensures
        r@ =~= ps@,
{
    let mut r: Vec<Placeholder> = Vec::new();
    let mut i: usize = 0;
    while i < ps.len()
        invariant
            i <= ps.len(),
            r@ =~= ps@.subrange(0, i as int),
        decreases ps.len() - i,
    {
        r.push(ps[i].clone());
        i = i + 1;
    }
    r
}

impl Clone for SubCommand {
    fn clone(&self) -> (r: Self)
        ensures
            r@ == self@,
    {
        SubCommand {
            command: self.command.clone(),
            description: self.description.clone(),
            placeholders: match &self.placeholders {
                Option::Some(ps) => Option::Some(clone_placeholders(ps)),
                Option::None => Option::None,
            },
        }
    }
}

impl PartialEq for Placeholder {
    fn eq(&self, other: &Self) -> (r: bool) {
        self.name == other.name && self.description == other.description
    }
}

impl vstd::std_specs::cmp::PartialEqSpecImpl for Placeholder {
    open spec fn obeys_eq_spec() -> bool {
        true
    }

    open spec fn eq_spec(&self, other: &Self) -> bool {
        self@ == other@
    }
}

fn placeholders_eq(a: &Vec<Placeholder>, b: &Vec<Placeholder>) -> (r: bool)
    ensures
        r == (placeholders_view(a@) == placeholders_view(b@)),
{
    if a.len() != b.len() {
        assert(placeholders_view(a@).len() != placeholders_view(b@).len());
        return false;
    }
    let mut i: usize = 0;
    while i < a.len()
        invariant
            i <= a.len(),
            a.len() == b.len(),
            forall|j: int| 0 <= j < i ==> a@[j]@ == b@[j]@,
        decreases a.len() - i,
    {
        if !(a[i] == b[i]) {
            assert(placeholders_view(a@)[i as int] != placeholders_view(b@)[i as int]);
            return false;
        }
        i = i + 1;
    }
    assert(placeholders_view(a@) =~= placeholders_view(b@));
    true
}

impl PartialEq for SubCommand {
    fn eq(&self, other: &Self) -> (r: bool) {
        let fields_eq = self.command == other.command && self.description == other.description;
        let placeholders_match = match (&self.placeholders, &other.placeholders) {
            (Option::Some(a), Option::Some(b)) => placeholders_eq(a, b),
            (Option::None, Option::None) => true,
            _ => false,
        };
        fields_eq && placeholders_match
    }
}

impl vstd::std_specs::cmp::PartialEqSpecImpl for SubCommand {
    open spec fn obeys_eq_spec() -> bool {
        true
    }

    open spec fn eq_spec(&self, other: &Self) -> bool {
        self@ == other@
    }
}

/// Whether two entry sequences hold value-equal entries in the same order.
pub fn entries_eq(a: &Vec<SubCommand>, b: &Vec<SubCommand>) -> (r: bool)
    ensures
        r == (entries_view(a@) == entries_view(b@)),
{
    if a.len() != b.len() {
        assert(entries_view(a@).len() != entries_view(b@).len());
        return false;
    }
    let mut i: usize = 0;
    while i < a.len()
        invariant
            i <= a.len(),
            a.len() == b.len(),
            forall|j: int| 0 <= j < i ==> a@[j]@ == b@[j]@,
        decreases a.len() - i,
    {
        if !(a[i] == b[i]) {
            assert(entries_view(a@)[i as int] != entries_view(b@)[i as int]);
            return false;
        }
        i = i + 1;
    }
    assert(entries_view(a@) =~= entries_view(b@));
    true
}

impl PartialEq for Command {
    fn eq(&self, other: &Self) -> (r: bool) {
        self.name == other.name && entries_eq(&self.commands, &other.commands)
    }
}

impl vstd::std_specs::cmp::PartialEqSpecImpl for Command {
    open spec fn obeys_eq_spec() -> bool {
        true
    }

    open spec fn eq_spec(&self, other: &Self) -> bool {
        self@ == other@
    }
}

// ---------------------------------------------------------------------------
// The diff between two snapshots of an entry sequence.
// ---------------------------------------------------------------------------

/// The entries of `xs` that are absent from `ys` by full-value equality:
/// first occurrences only, in the order of `xs`.
pub open spec fn diff_minus(
    xs: Seq<SubCommandView>,
    ys: Seq<SubCommandView>,
) -> Seq<SubCommandView>
    decreases xs.len(),
{
    if xs.len() == 0 {
        Seq::empty()
    } else if ys.contains(xs[0]) {
        diff_minus(xs.drop_first(), ys)
    } else {
        seq![xs[0]] + diff_minus(xs.drop_first(), ys.push(xs[0]))
    }
}

/// What `diff_minus` holds: exactly the values in `xs` and not in `ys`,
/// each once.
pub proof fn lemma_diff_minus_props(xs: Seq<SubCommandView>, ys: Seq<SubCommandView>)
    ensures
        forall|e: SubCommandView| #[trigger] diff_minus(xs, ys).contains(e) <==> (xs.contains(e)
            && !ys.contains(e)),
        diff_minus(xs, ys).no_duplicates(),
    decreases xs.len(),
{
    broadcast use vstd::seq_lib::group_seq_properties;

    if xs.len() == 0 {
        assert(diff_minus(xs, ys) =~= Seq::<SubCommandView>::empty());
    } else {
        let x0 = xs[0];
        let rest = xs.drop_first();
        assert forall|e: SubCommandView| #[trigger] xs.contains(e) implies (e == x0
            || rest.contains(e)) by {
            let i = choose|i: int| 0 <= i < xs.len() && xs[i] == e;
            if i > 0 {
                assert(rest[i - 1] == e);
            }
        }
        assert forall|e: SubCommandView| rest.contains(e) implies xs.contains(e) by {
            let i = choose|i: int| 0 <= i < rest.len() && rest[i] == e;
            assert(xs[i + 1] == e);
        }
        assert(xs.contains(x0));
        if ys.contains(x0) {
            lemma_diff_minus_props(rest, ys);
        } else {
            lemma_diff_minus_props(rest, ys.push(x0));
            let d = diff_minus(rest, ys.push(x0));
            let r = seq![x0] + d;
            assert(r[0] == x0);
            assert forall|k: int| 0 <= k < d.len() implies r[k + 1] == d[k] by {}
            assert forall|e: SubCommandView| #[trigger] r.contains(e) implies (e == x0
                || d.contains(e)) by {
                let i = choose|i: int| 0 <= i < r.len() && r[i] == e;
                if i > 0 {
                    assert(d[i - 1] == e);
                }
            }
            assert(!d.contains(x0));
            assert(r.no_duplicates()) by {
                assert forall|i: int, j: int|
                    0 <= i < r.len() && 0 <= j < r.len() && i != j implies r[i] != r[j] by {
                    if i == 0 {
                        assert(d[j - 1] == r[j]);
                    } else if j == 0 {
                        assert(d[i - 1] == r[i]);
                    } else {
                        assert(r[i] == d[i - 1] && r[j] == d[j - 1]);
                    }
                }
            }
        }
    }
}

/// Diff correctness: the difference of two snapshots holds exactly the
/// entry values present in the one and absent from the other, by full-value
/// equality, each once; value-identical entries never appear in it.
pub proof fn lemma_diff_exact(prev: Seq<SubCommandView>, cur: Seq<SubCommandView>)
    ensures
        diff_minus(cur, prev).to_set() == cur.to_set().difference(prev.to_set()),
        forall|e: SubCommandView| #[trigger] diff_minus(cur, prev).contains(e) <==> (cur.contains(
            e,
        ) && !prev.contains(e)),
        diff_minus(cur, prev).no_duplicates(),
{
    lemma_diff_minus_props(cur, prev);
    assert(diff_minus(cur, prev).to_set() =~= cur.to_set().difference(prev.to_set()));
}

/// How the difference grows by one more current entry.
pub proof fn lemma_diff_minus_snoc(xs: Seq<SubCommandView>, ys: Seq<SubCommandView>, x: SubCommandView)
    ensures
        diff_minus(xs.push(x), ys) == if ys.contains(x) || xs.contains(x) {
            diff_minus(xs, ys)
        } else {
            diff_minus(xs, ys).push(x)
        },
    decreases xs.len(),
{
    broadcast use vstd::seq_lib::group_seq_properties;

    if xs.len() == 0 {
        assert(xs.push(x)[0] == x);
        assert(xs.push(x).drop_first() =~= xs);
        assert(diff_minus(xs, ys) == Seq::<SubCommandView>::empty());
        assert(diff_minus(xs, ys.push(x)) == Seq::<SubCommandView>::empty());
        if ys.contains(x) {
            assert(diff_minus(xs.push(x), ys) == diff_minus(xs, ys));
        } else {
            assert(diff_minus(xs.push(x), ys) == seq![x] + diff_minus(xs, ys.push(x)));
            assert(seq![x] + Seq::<SubCommandView>::empty() =~= Seq::<
                SubCommandView,
            >::empty().push(x));
        }
    } else {
        let x0 = xs[0];
        let rest = xs.drop_first();
        assert(xs.push(x)[0] == x0);
        assert(xs.push(x).drop_first() =~= rest.push(x));
        assert forall|e: SubCommandView| #[trigger] xs.contains(e) implies (e == x0
            || rest.contains(e)) by {
            let i = choose|i: int| 0 <= i < xs.len() && xs[i] == e;
            if i > 0 {
                assert(rest[i - 1] == e);
            }
        }
        assert forall|e: SubCommandView| rest.contains(e) implies xs.contains(e) by {
            let i = choose|i: int| 0 <= i < rest.len() && rest[i] == e;
            assert(xs[i + 1] == e);
        }
        assert(xs.contains(x0));
        if ys.contains(x0) {
            lemma_diff_minus_snoc(rest, ys, x);
            assert(diff_minus(xs.push(x), ys) == diff_minus(rest.push(x), ys));
            assert(diff_minus(xs, ys) == diff_minus(rest, ys));
            assert((ys.contains(x) || xs.contains(x)) <==> (ys.contains(x) || rest.contains(x)));
        } else {
            lemma_diff_minus_snoc(rest, ys.push(x0), x);
            assert(diff_minus(xs.push(x), ys) == seq![x0] + diff_minus(rest.push(x), ys.push(x0)));
            assert(diff_minus(xs, ys) == seq![x0] + diff_minus(rest, ys.push(x0)));
            assert(ys.push(x0).contains(x) <==> (ys.contains(x) || x == x0));
            assert((ys.push(x0).contains(x) || rest.contains(x)) <==> (ys.contains(x)
                || xs.contains(x)));
            if !(ys.contains(x) || xs.contains(x)) {
                assert(seq![x0] + diff_minus(rest, ys.push(x0)).push(x) =~= (seq![x0] + diff_minus(
                    rest,
                    ys.push(x0),
                )).push(x));
            }
        }
    }
}

/// Whether any entry of `v` equals `e` by full-value equality.
pub fn contains_entry(v: &Vec<SubCommand>, e: &SubCommand) -> (r: bool)
    ensures
        r == entries_view(v@).contains(e@),
{
    let mut i: usize = 0;
    while i < v.len()
        invariant
            i <= v.len(),
            forall|k: int| 0 <= k < i ==> entries_view(v@)[k] != e@,
        decreases v.len() - i,
    {
        if v[i] == *e {
            assert(entries_view(v@)[i as int] == e@);
            return true;
        }
        i = i + 1;
    }
    proof {
        if entries_view(v@).contains(e@) {
            let k = choose|k: int|
                0 <= k < entries_view(v@).len() && entries_view(v@)[k] == e@;
            assert(entries_view(v@)[k] != e@);
        }
    }
    false
}

/// The entries of `xs` that are absent from `ys` by full-value equality,
/// first occurrences only, in the order of `xs`.
pub fn diff_entries(xs: &Vec<SubCommand>, ys: &Vec<SubCommand>) -> (r: Vec<SubCommand>)
    ensures
        entries_view(r@) == diff_minus(entries_view(xs@), entries_view(ys@)),
{
    let ghost xv = entries_view(xs@);
    let ghost yv = entries_view(ys@);
    let mut r: Vec<SubCommand> = Vec::new();
    proof {
        assert(xv.subrange(0, 0) =~= Seq::<SubCommandView>::empty());
        assert(entries_view(r@) =~= diff_minus(xv.subrange(0, 0), yv));
    }
    let mut i: usize = 0;
    while i < xs.len()
        invariant
            i <= xs.len(),
            xv == entries_view(xs@),
            yv == entries_view(ys@),
            xv.len() == xs.len(),
            entries_view(r@) == diff_minus(xv.subrange(0, i as int), yv),
        decreases xs.len() - i,
    {
        proof {
            lemma_diff_minus_props(xv.subrange(0, i as int), yv);
            lemma_diff_minus_snoc(xv.subrange(0, i as int), yv, xv[i as int]);
            assert(xv.subrange(0, i + 1) =~= xv.subrange(0, i as int).push(xv[i as int]));
            assert(entries_view(xs@)[i as int] == xs@[i as int]@);
        }
        if !contains_entry(ys, &xs[i]) && !contains_entry(&r, &xs[i]) {
            let e = xs[i].clone();
            proof {
                assert(entries_view(r@.push(e)) =~= entries_view(r@).push(xs@[i as int]@));
            }
            r.push(e);
        } else {
            proof {
                if !yv.contains(xv[i as int]) {
                    assert(entries_view(r@).contains(xv[i as int]));
                    assert(xv.subrange(0, i as int).contains(xv[i as int]));
                }
            }
        }
        i = i + 1;
    }
    proof {
        assert(xv.subrange(0, xs.len() as int) =~= xv);
    }
    r
}

/// How two snapshots of an entry sequence compare.
pub trait CompareSubCommands: View<V = Seq<SubCommand>> {
    /// The first sequence holds the entries of `other` absent from `self`,
    /// the second the entries of `self` absent from `other`, both by
    /// full-value equality and without duplicates.  Called with the
    /// previous snapshot as `self` and the current one as `other`, the
    /// first is what a commit added and the second what it removed.
    fn compare(&self, other: &Self) -> (r: (Vec<SubCommand>, Vec<SubCommand>))
        ensures
            entries_view(r.0@) == diff_minus(entries_view(other@), entries_view(self@)),
            entries_view(r.1@) == diff_minus(entries_view(self@), entries_view(other@)),
    ;
}

impl CompareSubCommands for Vec<SubCommand> {
    fn compare(&self, other: &Self) -> (r: (Vec<SubCommand>, Vec<SubCommand>)) {
        let added = diff_entries(other, self);
        let removed = diff_entries(self, other);
        (added, removed)
    }
}

impl SubCommand {
    /// The text projection under which an entry is embedded for indexing:
    /// the invocation and the description joined by `" : "`, so that the
    /// stored vector represents both the command and its intent.
    pub fn index_text(&self) -> (r: String)
        ensures
            r@ == self.command@ + " : "@ + self.description@,
    {
        let mut text: String = self.command.as_str().to_owned();
        text.append(" : ");
        text.append(self.description.as_str());
        text
    }
}

} // verus!
