//! The vector-index side of a commit: the delete and upsert operations a
//! reconciliation asks for, and a model of what they do to the index.
//!
//! The index is modelled as a map from record identity to stored payload:
//! an upsert inserts or overwrites the record at its identity, a delete
//! removes it and is a no-op when it is absent.  A commit performs every
//! delete of the remove-set first, then every upsert of the add-set.

use vstd::prelude::*;
use crate::command::{entries_view, SubCommand, SubCommandView};
use crate::identity::{identity_of, uuid_hash};
use crate::payload::{entry_payload, payload_of};

verus! {

/// One operation against the vector store.
#[derive(Debug)]
pub enum IndexOp {
    /// Remove the record at the identity, if any.
    Delete { id: String },
    /// Insert or overwrite the record at the identity, with the embedding
    /// of the given text and the given payload attached.
    Upsert { id: String, embed_text: String, payload: String },
}

/// The mathematical value of an `IndexOp`.
#[verifier::ext_equal]
pub enum IndexOpView {
    Delete { id: Seq<char> },
    Upsert { id: Seq<char>, embed_text: Seq<char>, payload: Seq<char> },
}

impl View for IndexOp {
    type V = IndexOpView;

    open spec fn view(&self) -> IndexOpView {
        match self {
            IndexOp::Delete { id } => IndexOpView::Delete { id: id@ },
            IndexOp::Upsert { id, embed_text, payload } => IndexOpView::Upsert {
                id: id@,
                embed_text: embed_text@,
                payload: payload@,
            },
        }
    }
}

/// The values of an operation sequence.
pub open spec fn ops_view(ops: Seq<IndexOp>) -> Seq<IndexOpView> {
    ops.map_values(|o: IndexOp| o@)
}

/// The operation that removes an entry's record.
pub open spec fn delete_op_of(e: SubCommandView) -> IndexOpView {
    IndexOpView::Delete { id: identity_of(e.command) }
}

/// The operation that writes an entry's record: keyed by the identity of
/// its invocation alone, embedded under the index projection, carrying the
/// entry's payload.
pub open spec fn upsert_op_of(e: SubCommandView) -> IndexOpView {
    IndexOpView::Upsert {
        id: identity_of(e.command),
        embed_text: e.command + " : "@ + e.description,
        payload: payload_of(e),
    }
}

/// The operations of one commit: every delete from the remove-set first,
/// then every upsert from the add-set, each in its set's order.
pub open spec fn commit_ops(
    add: Seq<SubCommandView>,
    remove: Seq<SubCommandView>,
) -> Seq<IndexOpView> {
    remove.map_values(|e: SubCommandView| delete_op_of(e)) + add.map_values(
        |e: SubCommandView| upsert_op_of(e),
    )
}

/// The operations that bring the index in line with one commit.
pub fn plan_commit(add: &Vec<SubCommand>, remove: &Vec<SubCommand>) -> (r: Vec<IndexOp>)
    ensures
        ops_view(r@) == commit_ops(entries_view(add@), entries_view(remove@)),
{
    let ghost addv = entries_view(add@);
    let ghost remv = entries_view(remove@);
    let mut ops: Vec<IndexOp> = Vec::new();
    proof {
        assert(ops_view(ops@) =~= remv.subrange(0, 0).map_values(
            |e: SubCommandView| delete_op_of(e),
        ));
    }
    let mut i: usize = 0;
    while i < remove.len()
        invariant
            i <= remove.len(),
            addv == entries_view(add@),
            remv == entries_view(remove@),
            remv.len() == remove.len(),
            ops_view(ops@) == remv.subrange(0, i as int).map_values(
                |e: SubCommandView| delete_op_of(e),
            ),
        decreases remove.len() - i,
    {
        let op = IndexOp::Delete { id: uuid_hash(remove[i].command.as_str()) };
        proof {
            assert(remv[i as int] == remove@[i as int]@);
            assert(op@ == delete_op_of(remv[i as int]));
            assert(ops_view(ops@.push(op)) =~= ops_view(ops@).push(op@));
            assert(remv.subrange(0, i + 1).map_values(|e: SubCommandView| delete_op_of(e))
                =~= remv.subrange(0, i as int).map_values(|e: SubCommandView| delete_op_of(e)).push(
                delete_op_of(remv[i as int]),
            ));
        }
        ops.push(op);
        i = i + 1;
    }
    proof {
        assert(remv.subrange(0, remove.len() as int) =~= remv);
        assert(addv.subrange(0, 0) =~= Seq::<SubCommandView>::empty());
        assert(ops_view(ops@) =~= remv.map_values(|e: SubCommandView| delete_op_of(e))
            + addv.subrange(0, 0).map_values(|e: SubCommandView| upsert_op_of(e)));
    }
    let mut i2: usize = 0;
    while i2 < add.len()
        invariant
            i2 <= add.len(),
            addv == entries_view(add@),
            remv == entries_view(remove@),
            addv.len() == add.len(),
            ops_view(ops@) == remv.map_values(|e: SubCommandView| delete_op_of(e)) + addv.subrange(
                0,
                i2 as int,
            ).map_values(|e: SubCommandView| upsert_op_of(e)),
        decreases add.len() - i2,
    {
        let op = IndexOp::Upsert {
            id: uuid_hash(add[i2].command.as_str()),
            embed_text: add[i2].index_text(),
            payload: entry_payload(&add[i2]),
        };
        proof {
            assert(addv[i2 as int] == add@[i2 as int]@);
            assert(op@ == upsert_op_of(addv[i2 as int]));
            assert(ops_view(ops@.push(op)) =~= ops_view(ops@).push(op@));
            assert(addv.subrange(0, i2 + 1).map_values(|e: SubCommandView| upsert_op_of(e))
                =~= addv.subrange(0, i2 as int).map_values(|e: SubCommandView| upsert_op_of(e)).push(
                upsert_op_of(addv[i2 as int]),
            ));
            assert(remv.map_values(|e: SubCommandView| delete_op_of(e)) + addv.subrange(
                0,
                i2 as int,
            ).map_values(|e: SubCommandView| upsert_op_of(e)).push(upsert_op_of(addv[i2 as int]))
                =~= (remv.map_values(|e: SubCommandView| delete_op_of(e)) + addv.subrange(
                0,
                i2 as int,
            ).map_values(|e: SubCommandView| upsert_op_of(e))).push(upsert_op_of(addv[i2 as int])));
        }
        ops.push(op);
        i2 = i2 + 1;
    }
    proof {
        assert(addv.subrange(0, add.len() as int) =~= addv);
    }
    ops
}

// ---------------------------------------------------------------------------
// What the operations do to the index.
// ---------------------------------------------------------------------------

/// The index after one operation.
pub open spec fn apply_op(
    m: Map<Seq<char>, Seq<char>>,
    op: IndexOpView,
) -> Map<Seq<char>, Seq<char>> {
    match op {
        IndexOpView::Delete { id } => m.remove(id),
        IndexOpView::Upsert { id, embed_text: _, payload } => m.insert(id, payload),
    }
}

/// The index after a sequence of operations, applied in order.
pub open spec fn apply_ops(
    m: Map<Seq<char>, Seq<char>>,
    ops: Seq<IndexOpView>,
) -> Map<Seq<char>, Seq<char>>
    decreases ops.len(),
{
    if ops.len() == 0 {
        m
    } else {
        apply_ops(apply_op(m, ops[0]), ops.drop_first())
    }
}

/// The index after deleting every record of a set of entries.
pub open spec fn delete_all(
    m: Map<Seq<char>, Seq<char>>,
    es: Seq<SubCommandView>,
) -> Map<Seq<char>, Seq<char>>
    decreases es.len(),
{
    if es.len() == 0 {
        m
    } else {
        delete_all(m.remove(identity_of(es[0].command)), es.drop_first())
    }
}

/// The index after upserting every entry of a set, in order.
pub open spec fn upsert_all(
    m: Map<Seq<char>, Seq<char>>,
    es: Seq<SubCommandView>,
) -> Map<Seq<char>, Seq<char>>
    decreases es.len(),
{
    if es.len() == 0 {
        m
    } else {
        upsert_all(m.insert(identity_of(es[0].command), payload_of(es[0])), es.drop_first())
    }
}

pub proof fn lemma_apply_ops_concat(
    m: Map<Seq<char>, Seq<char>>,
    a: Seq<IndexOpView>,
    b: Seq<IndexOpView>,
)
    ensures
        apply_ops(m, a + b) == apply_ops(apply_ops(m, a), b),
    decreases a.len(),
{
    if a.len() == 0 {
        assert(a + b =~= b);
    } else {
        assert((a + b)[0] == a[0]);
        assert((a + b).drop_first() =~= a.drop_first() + b);
        lemma_apply_ops_concat(apply_op(m, a[0]), a.drop_first(), b);
    }
}

pub proof fn lemma_apply_deletes(m: Map<Seq<char>, Seq<char>>, es: Seq<SubCommandView>)
    ensures
        apply_ops(m, es.map_values(|e: SubCommandView| delete_op_of(e))) == delete_all(m, es),
    decreases es.len(),
{
    let ops = es.map_values(|e: SubCommandView| delete_op_of(e));
    if es.len() > 0 {
        assert(ops[0] == delete_op_of(es[0]));
        assert(ops.drop_first() =~= es.drop_first().map_values(
            |e: SubCommandView| delete_op_of(e),
        ));
        lemma_apply_deletes(m.remove(identity_of(es[0].command)), es.drop_first());
    }
}

pub proof fn lemma_apply_upserts(m: Map<Seq<char>, Seq<char>>, es: Seq<SubCommandView>)
    ensures
        apply_ops(m, es.map_values(|e: SubCommandView| upsert_op_of(e))) == upsert_all(m, es),
    decreases es.len(),
{
    let ops = es.map_values(|e: SubCommandView| upsert_op_of(e));
    if es.len() > 0 {
        assert(ops[0] == upsert_op_of(es[0]));
        assert(ops.drop_first() =~= es.drop_first().map_values(
            |e: SubCommandView| upsert_op_of(e),
        ));
        lemma_apply_upserts(m.insert(identity_of(es[0].command), payload_of(es[0])), es.drop_first());
    }
}

/// What one commit's operations do: first the remove-set's records leave
/// the index, then the add-set's records are written.
pub proof fn lemma_commit_ops_effect(
    m: Map<Seq<char>, Seq<char>>,
    add: Seq<SubCommandView>,
    remove: Seq<SubCommandView>,
)
    ensures
        apply_ops(m, commit_ops(add, remove)) == upsert_all(delete_all(m, remove), add),
{
    lemma_apply_ops_concat(
        m,
        remove.map_values(|e: SubCommandView| delete_op_of(e)),
        add.map_values(|e: SubCommandView| upsert_op_of(e)),
    );
    lemma_apply_deletes(m, remove);
    lemma_apply_upserts(delete_all(m, remove), add);
}

/// The payload the upserts of a set leave at a key: the payload of the
/// last entry of the set whose identity is that key, if any.
pub open spec fn upserted_value(es: Seq<SubCommandView>, k: Seq<char>) -> Option<Seq<char>>
    decreases es.len(),
{
    if es.len() == 0 {
        None
    } else if identity_of(es.last().command) == k {
        Some(payload_of(es.last()))
    } else {
        upserted_value(es.drop_last(), k)
    }
}

pub proof fn lemma_upsert_all_snoc(
    m: Map<Seq<char>, Seq<char>>,
    es: Seq<SubCommandView>,
    e: SubCommandView,
)
    ensures
        upsert_all(m, es.push(e)) == upsert_all(m, es).insert(
            identity_of(e.command),
            payload_of(e),
        ),
    decreases es.len(),
{
    if es.len() == 0 {
        assert(es.push(e)[0] == e);
        assert(es.push(e).drop_first() =~= es);
        assert(upsert_all(m, es) == m);
        assert(upsert_all(m, es.push(e)) == upsert_all(
            m.insert(identity_of(e.command), payload_of(e)),
            es,
        ));
    } else {
        assert(es.push(e)[0] == es[0]);
        assert(es.push(e).drop_first() =~= es.drop_first().push(e));
        let m1 = m.insert(identity_of(es[0].command), payload_of(es[0]));
        lemma_upsert_all_snoc(m1, es.drop_first(), e);
        assert(upsert_all(m, es.push(e)) == upsert_all(m1, es.drop_first().push(e)));
        assert(upsert_all(m, es) == upsert_all(m1, es.drop_first()));
    }
}

/// What the index holds at each key after upserting a set.
pub proof fn lemma_upsert_all_at(
    m: Map<Seq<char>, Seq<char>>,
    es: Seq<SubCommandView>,
    k: Seq<char>,
)
    ensures
        upsert_all(m, es).contains_key(k) <==> (m.contains_key(k) || upserted_value(es, k)
            is Some),
        upsert_all(m, es).contains_key(k) ==> upsert_all(m, es)[k] == (match upserted_value(
            es,
            k,
        ) {
            Some(p) => p,
            None => m[k],
        }),
    decreases es.len(),
{
    if es.len() > 0 {
        assert(es.drop_last().push(es.last()) =~= es);
        lemma_upsert_all_snoc(m, es.drop_last(), es.last());
        lemma_upsert_all_at(m, es.drop_last(), k);
    }
}

/// Idempotency: applying the same add-set twice through upsert leaves the
/// index exactly as applying it once does — records are keyed by identity
/// and overwritten, never duplicated.
pub proof fn lemma_upsert_idempotent(m: Map<Seq<char>, Seq<char>>, add: Seq<SubCommandView>)
    ensures
        upsert_all(upsert_all(m, add), add) == upsert_all(m, add),
{
    let once = upsert_all(m, add);
    let twice = upsert_all(once, add);
    assert forall|k: Seq<char>| #[trigger] twice.contains_key(k) <==> once.contains_key(k) by {
        lemma_upsert_all_at(m, add, k);
        lemma_upsert_all_at(once, add, k);
    }
    assert forall|k: Seq<char>| twice.contains_key(k) implies twice[k] == once[k] by {
        lemma_upsert_all_at(m, add, k);
        lemma_upsert_all_at(once, add, k);
    }
    assert(twice =~= once);
}

/// The value the whole add-set leaves for one of its entries: the last
/// entry with a given identity wins.
pub proof fn lemma_upserted_value_of_last(es: Seq<SubCommandView>, i: int)
    requires
        0 <= i < es.len(),
        forall|j: int| i < j < es.len() ==> identity_of(#[trigger] es[j].command) != identity_of(
            es[i].command,
        ),
    ensures
        upserted_value(es, identity_of(es[i].command)) == Some(payload_of(es[i])),
    decreases es.len(),
{
    if i == es.len() - 1 {
        assert(es.last() == es[i]);
    } else {
        assert(es.last() == es[es.len() - 1]);
        assert(identity_of(es[es.len() - 1].command) != identity_of(es[i].command));
        assert(es.drop_last()[i] == es[i]);
        assert(forall|j: int|
            i < j < es.drop_last().len() ==> identity_of(#[trigger] es.drop_last()[j].command)
                != identity_of(es.drop_last()[i].command));
        lemma_upserted_value_of_last(es.drop_last(), i);
    }
}

/// Replacement: when a commit removes an entry and adds another with the
/// same invocation — a changed description, say — the index afterwards
/// holds exactly one record at that identity, the added entry's, never two
/// and never none.  The hypothesis only asks that no later entry of the
/// add-set writes the same identity.
pub proof fn lemma_replace_single_record(
    m: Map<Seq<char>, Seq<char>>,
    add: Seq<SubCommandView>,
    remove: Seq<SubCommandView>,
    i: int,
)
    requires
        0 <= i < add.len(),
        forall|j: int| i < j < add.len() ==> identity_of(#[trigger] add[j].command) != identity_of(
            add[i].command,
        ),
    ensures
        ({
            let after = apply_ops(m, commit_ops(add, remove));
            let id = identity_of(add[i].command);
            after.contains_key(id) && after[id] == payload_of(add[i])
        }),
{
    lemma_commit_ops_effect(m, add, remove);
    lemma_upserted_value_of_last(add, i);
    lemma_upsert_all_at(delete_all(m, remove), add, identity_of(add[i].command));
}

} // verus!
