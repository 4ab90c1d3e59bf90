//! The properties the store is meant to guarantee across operations, proved
//! once and for all over the store's model.

use vstd::prelude::*;
use crate::json::esc_byte;
use crate::json::escaped;
use crate::json::lit_key_name;
use crate::json::parse_body_spec;
use crate::json::parse_str_body;
use crate::json::skip_ws;
use crate::json::spec_person_json;
use crate::num::parse_u64_spec;
use crate::router::handle_spec;
use crate::router::is_delete_path;
use crate::router::is_person_path;
use crate::router::is_update_path;
use crate::router::lit_add;
use crate::router::lit_all;
use crate::router::msg_not_found;
use crate::router::seg2;
use crate::router::Method;
use crate::store::alloc_id;
use crate::store::ids_distinct;
use crate::store::ids_increasing;
use crate::store::lemma_add_keeps_increasing;
use crate::store::lemma_delete_keeps_increasing;
use crate::store::lemma_update_keeps_increasing;
use crate::store::spec_add;
use crate::store::spec_delete;
use crate::store::spec_find;
use crate::store::spec_update;

verus! {

/// Strictly increasing ids are pairwise distinct.
pub proof fn lemma_increasing_implies_distinct(s: Seq<(int, Seq<u8>)>)
    requires
        ids_increasing(s),
    ensures
        ids_distinct(s),
{
    assert forall|i: int, j: int|
        0 <= i < s.len() && 0 <= j < s.len() && i != j implies #[trigger] s[i].0
        != #[trigger] s[j].0 by {
        if i < j {
            assert(s[i].0 < s[j].0);
        } else {
            assert(s[j].0 < s[i].0);
        }
    }
}

/// The index of the first record with this id, or -1.
pub open spec fn find_idx(s: Seq<(int, Seq<u8>)>, id: int) -> int
    decreases s.len(),
{
    if s.len() == 0 {
        -1
    } else if s[0].0 == id {
        0
    } else {
        let r = find_idx(s.drop_first(), id);
        if r < 0 {
            -1
        } else {
            r + 1
        }
    }
}

/// `spec_find` returns the record at the first matching index, and nothing
/// before it matches; with no matching index it returns nothing.
pub proof fn lemma_find_idx(s: Seq<(int, Seq<u8>)>, id: int)
    ensures
        find_idx(s, id) < 0 ==> spec_find(s, id) is None && forall|j: int|
            0 <= j < s.len() ==> #[trigger] s[j].0 != id,
        find_idx(s, id) >= 0 ==> find_idx(s, id) < s.len() && s[find_idx(s, id)].0 == id
            && spec_find(s, id) == Some(s[find_idx(s, id)]) && forall|j: int|
            0 <= j < find_idx(s, id) ==> #[trigger] s[j].0 != id,
    decreases s.len(),
{
    if s.len() > 0 && s[0].0 != id {
        let d = s.drop_first();
        lemma_find_idx(d, id);
        let r = find_idx(d, id);
        if r < 0 {
            assert forall|j: int| 0 <= j < s.len() implies #[trigger] s[j].0 != id by {
                if j > 0 {
                    assert(d[j - 1].0 != id);
                }
            }
        } else {
            assert(s[r + 1] == d[r]);
            assert forall|j: int| 0 <= j < r + 1 implies #[trigger] s[j].0 != id by {
                if j > 0 {
                    assert(d[j - 1].0 != id);
                }
            }
        }
    }
}

/// A record that matches at `k`, with no match before it, is what
/// `spec_find` returns.
pub proof fn lemma_find_at(s: Seq<(int, Seq<u8>)>, id: int, k: int)
    requires
        0 <= k < s.len(),
        s[k].0 == id,
        forall|j: int| 0 <= j < k ==> #[trigger] s[j].0 != id,
    ensures
        spec_find(s, id) == Some(s[k]),
    decreases k,
{
    if k > 0 {
        let d = s.drop_first();
        assert(s[0].0 != id);
        assert forall|j: int| 0 <= j < k - 1 implies #[trigger] d[j].0 != id by {
            assert(s[j + 1].0 != id);
        }
        lemma_find_at(d, id, k - 1);
        assert(d[k - 1] == s[k]);
    }
}

/// With no matching record, `spec_find` returns nothing.
pub proof fn lemma_find_none(s: Seq<(int, Seq<u8>)>, id: int)
    requires
        forall|j: int| 0 <= j < s.len() ==> #[trigger] s[j].0 != id,
    ensures
        spec_find(s, id) is None,
    decreases s.len(),
{
    if s.len() > 0 {
        let d = s.drop_first();
        assert forall|j: int| 0 <= j < d.len() implies #[trigger] d[j].0 != id by {
            assert(s[j + 1].0 != id);
        }
        lemma_find_none(d, id);
    }
}

/// Round trip of a single add: looking the freshly allocated id up right
/// after adding returns the record just added, with the name that was given.
pub proof fn lemma_add_then_find(s: Seq<(int, Seq<u8>)>, name: Seq<u8>)
    requires
        ids_increasing(s),
    ensures
        spec_find(spec_add(s, name), alloc_id(s)) == Some((alloc_id(s), name)),
{
    let id = alloc_id(s);
    let s2 = spec_add(s, name);
    assert forall|j: int| 0 <= j < s.len() implies #[trigger] s2[j].0 != id by {
        if j < s.len() - 1 {
            assert(s[j].0 < s[s.len() - 1].0);
        }
    }
    lemma_find_at(s2, id, s.len() as int);
}

/// Every record that survives a delete has a different id.
pub proof fn lemma_delete_removes(s: Seq<(int, Seq<u8>)>, id: int)
    ensures
        forall|k: int|
            0 <= k < spec_delete(s, id).len() ==> #[trigger] spec_delete(s, id)[k].0 != id,
    decreases s.len(),
{
    if s.len() > 0 {
        let rest = spec_delete(s.drop_last(), id);
        lemma_delete_removes(s.drop_last(), id);
        let out = spec_delete(s, id);
        assert forall|k: int| 0 <= k < out.len() implies #[trigger] out[k].0 != id by {
            if s.last().0 == id || k < rest.len() {
                assert(out[k] == rest[k]);
            } else {
                assert(out[k] == s.last());
            }
        }
    }
}

/// Deleting an id, then looking it up, finds nothing.
pub proof fn lemma_delete_then_find(s: Seq<(int, Seq<u8>)>, id: int)
    ensures
        spec_find(spec_delete(s, id), id) is None,
{
    lemma_delete_removes(s, id);
    lemma_find_none(spec_delete(s, id), id);
}

/// Updating a present id, then looking it up, shows the same id with the new
/// name.
pub proof fn lemma_update_then_find(s: Seq<(int, Seq<u8>)>, id: int, name: Seq<u8>)
    requires
        spec_find(s, id) is Some,
    ensures
        spec_find(spec_update(s, id, name), id) == Some((id, name)),
{
    lemma_find_idx(s, id);
    let k = find_idx(s, id);
    let s2 = spec_update(s, id, name);
    assert(s2[k] == (id, name));
    assert forall|j: int| 0 <= j < k implies #[trigger] s2[j].0 != id by {
        assert(s2[j].0 == s[j].0);
    }
    lemma_find_at(s2, id, k);
}

/// One store operation, on the store's model.
pub enum StoreOp {
    AddOp(Seq<u8>),
    DeleteOp(int),
    UpdateOp(int, Seq<u8>),
}

/// What one operation does to the model.
pub open spec fn apply_op(s: Seq<(int, Seq<u8>)>, op: StoreOp) -> Seq<(int, Seq<u8>)> {
    match op {
        StoreOp::AddOp(name) => spec_add(s, name),
        StoreOp::DeleteOp(id) => spec_delete(s, id),
        StoreOp::UpdateOp(id, name) => spec_update(s, id, name),
    }
}

/// What a whole sequence of operations does, first to last.
pub open spec fn apply_ops(s: Seq<(int, Seq<u8>)>, ops: Seq<StoreOp>) -> Seq<(int, Seq<u8>)>
    decreases ops.len(),
{
    if ops.len() == 0 {
        s
    } else {
        apply_ops(apply_op(s, ops[0]), ops.drop_first())
    }
}

/// Uniqueness invariant: after any sequence of add, delete and update
/// operations on a store whose ids increase, ids still increase, and so are
/// pairwise distinct.
pub proof fn lemma_ops_keep_ids_distinct(s: Seq<(int, Seq<u8>)>, ops: Seq<StoreOp>)
    requires
        ids_increasing(s),
    ensures
        ids_increasing(apply_ops(s, ops)),
        ids_distinct(apply_ops(s, ops)),
    decreases ops.len(),
{
    if ops.len() == 0 {
        lemma_increasing_implies_distinct(s);
    } else {
        match ops[0] {
            StoreOp::AddOp(name) => lemma_add_keeps_increasing(s, name),
            StoreOp::DeleteOp(id) => lemma_delete_keeps_increasing(s, id),
            StoreOp::UpdateOp(id, name) => lemma_update_keeps_increasing(s, id, name),
        }
        lemma_ops_keep_ids_distinct(apply_op(s, ops[0]), ops.drop_first());
    }
}

/// A run of adds, one name after another.
pub open spec fn spec_add_all(s: Seq<(int, Seq<u8>)>, names: Seq<Seq<u8>>) -> Seq<(int, Seq<u8>)>
    decreases names.len(),
{
    if names.len() == 0 {
        s
    } else {
        spec_add_all(spec_add(s, names[0]), names.drop_first())
    }
}

/// No lost updates: a run of adds keeps every record that was there, appends
/// one record per name, in order, and keeps ids increasing, so every added
/// record has a distinct id.
pub proof fn lemma_add_all(s: Seq<(int, Seq<u8>)>, names: Seq<Seq<u8>>)
    requires
        ids_increasing(s),
    ensures
        spec_add_all(s, names).len() == s.len() + names.len(),
        spec_add_all(s, names).take(s.len() as int) == s,
        forall|i: int|
            0 <= i < names.len() ==> #[trigger] spec_add_all(s, names)[s.len() + i].1
                == names[i],
        ids_increasing(spec_add_all(s, names)),
    decreases names.len(),
{
    let out = spec_add_all(s, names);
    if names.len() == 0 {
        assert(out.take(s.len() as int) =~= s);
    } else {
        let s1 = spec_add(s, names[0]);
        let d = names.drop_first();
        lemma_add_keeps_increasing(s, names[0]);
        lemma_add_all(s1, d);
        assert(out == spec_add_all(s1, d));
        assert(out.take(s1.len() as int) == s1);
        assert(out.take(s.len() as int) =~= s) by {
            assert forall|j: int| 0 <= j < s.len() implies out.take(s.len() as int)[j]
                == s[j] by {
                assert(out.take(s1.len() as int)[j] == s1[j]);
            }
        }
        assert forall|i: int| 0 <= i < names.len() implies #[trigger] out[s.len() + i].1
            == names[i] by {
            if i == 0 {
                assert(out.take(s1.len() as int)[s.len() as int] == s1[s.len() as int]);
                assert(s1[s.len() as int].1 == names[0]);
            } else {
                assert(out[s1.len() + (i - 1)].1 == d[i - 1]);
            }
        }
    }
}

/// Idempotence of read: listing everything does not touch the store, and
/// listing twice with no mutation in between answers the same both times.
pub proof fn lemma_route_read_idempotent(s: Seq<(int, Seq<u8>)>, b1: Seq<u8>, b2: Seq<u8>)
    ensures
        handle_spec(s, Method::Get, lit_all(), b1).0 == s,
        handle_spec(s, Method::Get, lit_all(), b1) == handle_spec(s, Method::Get, lit_all(), b2),
{
}

/// Round trip through the routes: adding a person and then getting the id
/// that was allocated returns exactly that person's record.
pub proof fn lemma_route_add_then_get(
    s: Seq<(int, Seq<u8>)>,
    body: Seq<u8>,
    name: Seq<u8>,
    p2: Seq<u8>,
    b2: Seq<u8>,
    id: u64,
)
    requires
        ids_increasing(s),
        parse_body_spec(body) == Some(name),
        is_person_path(p2),
        parse_u64_spec(seg2(p2)) == Some(id),
        id as int == alloc_id(s),
    ensures
        ({
            let (s1, st1, _) = handle_spec(s, Method::Post, lit_add(), body);
            st1 == 200 && handle_spec(s1, Method::Get, p2, b2) == (
                s1,
                200int,
                spec_person_json(alloc_id(s), name),
            )
        }),
{
    lemma_add_then_find(s, name);
}

/// Delete then get through the routes: after deleting an id, getting it
/// reports it not found, whether or not it was there to begin with.
pub proof fn lemma_route_delete_then_get(
    s: Seq<(int, Seq<u8>)>,
    p1: Seq<u8>,
    b1: Seq<u8>,
    p2: Seq<u8>,
    b2: Seq<u8>,
    id: u64,
)
    requires
        is_delete_path(p1),
        parse_u64_spec(seg2(p1)) == Some(id),
        is_person_path(p2),
        parse_u64_spec(seg2(p2)) == Some(id),
    ensures
        ({
            let (s1, _, _) = handle_spec(s, Method::Delete, p1, b1);
            handle_spec(s1, Method::Get, p2, b2) == (s1, 404int, msg_not_found(id as int))
        }),
{
    if spec_find(s, id as int) is Some {
        lemma_delete_then_find(s, id as int);
    }
}

/// Update then get through the routes: updating a present id and getting it
/// shows the same id with the new name.
pub proof fn lemma_route_update_then_get(
    s: Seq<(int, Seq<u8>)>,
    p1: Seq<u8>,
    body: Seq<u8>,
    name: Seq<u8>,
    p2: Seq<u8>,
    b2: Seq<u8>,
    id: u64,
)
    requires
        is_update_path(p1),
        parse_u64_spec(seg2(p1)) == Some(id),
        parse_body_spec(body) == Some(name),
        spec_find(s, id as int) is Some,
        is_person_path(p2),
        parse_u64_spec(seg2(p2)) == Some(id),
    ensures
        ({
            let (s1, st1, _) = handle_spec(s, Method::Put, p1, body);
            st1 == 200 && handle_spec(s1, Method::Get, p2, b2) == (
                s1,
                200int,
                spec_person_json(id as int, name),
            )
        }),
{
    lemma_update_then_find(s, id as int, name);
}

/// Escaping unfolds from the front as well as from the back.
proof fn lemma_escaped_front(name: Seq<u8>)
    requires
        name.len() > 0,
    ensures
        escaped(name) == esc_byte(name[0]) + escaped(name.drop_first()),
    decreases name.len(),
{
    if name.len() == 1 {
        assert(name.drop_last() =~= Seq::<u8>::empty());
        assert(name.drop_first() =~= Seq::<u8>::empty());
        assert(escaped(name) =~= esc_byte(name[0]) + escaped(name.drop_first()));
    } else {
        let d = name.drop_last();
        lemma_escaped_front(d);
        assert(d[0] == name[0]);
        assert(d.drop_first() =~= name.drop_first().drop_last());
        assert(name.drop_first().last() == name.last());
        assert(escaped(name) =~= esc_byte(name[0]) + escaped(name.drop_first()));
    }
}

/// An escaped name followed by a closing quote parses back to exactly that
/// name, ending just after the quote.
proof fn lemma_parse_escaped(s: Seq<u8>, i: int, name: Seq<u8>)
    requires
        0 <= i,
        i + escaped(name).len() + 1 <= s.len(),
        forall|k: int| 0 <= k < escaped(name).len() ==> s[i + k] == #[trigger] escaped(name)[k],
        s[i + escaped(name).len()] == 34,
    ensures
        parse_str_body(s, i) == Some::<(Seq<u8>, int)>((name, i + escaped(name).len() + 1)),
    decreases name.len(),
{
    if name.len() == 0 {
        assert(s[i] == 34);
        assert(name =~= Seq::<u8>::empty());
    } else {
        let b = name[0];
        let rest = name.drop_first();
        lemma_escaped_front(name);
        let eb = esc_byte(b);
        let er = escaped(rest);
        let j = i + eb.len();
        assert forall|k: int| 0 <= k < eb.len() implies s[i + k] == eb[k] by {
            assert(escaped(name)[k] == eb[k]);
        }
        assert forall|k: int| 0 <= k < er.len() implies s[j + k] == #[trigger] er[k] by {
            assert(escaped(name)[eb.len() + k] == er[k]);
            assert(s[i + (eb.len() + k)] == escaped(name)[eb.len() + k]);
        }
        assert(s[j + er.len()] == 34);
        lemma_parse_escaped(s, j, rest);
        assert(seq![b] + rest =~= name);
        if b == 34 || b == 92 || b == 8 || b == 12 || b == 10 || b == 13 || b == 9 {
            assert(s[i] == 92);
        } else if b < 32 {
            assert(s[i] == 92);
            assert(s[i + 1] == 117);
            assert(s[i + 2] == 48);
            assert(s[i + 3] == 48);
            vstd::arithmetic::div_mod::lemma_fundamental_div_mod(b as int, 16);
            assert(crate::json::hex_val(s[i + 4]) == b / 16);
            assert(crate::json::hex_val(s[i + 5]) == b % 16);
            assert(crate::json::hex4(s, i + 2) == b as int);
        } else {
            assert(s[i] == b);
        }
    }
}

/// A request body as the service itself would render it: the object
/// `{"name":"..."}` with the name escaped, and no extra whitespace.
pub open spec fn rendered_body(name: Seq<u8>) -> Seq<u8> {
    seq![123u8] + lit_key_name() + seq![58u8, 34u8] + escaped(name) + seq![34u8, 125u8]
}

/// Round trip at the codec level: a body rendered for any name is accepted
/// by the body parser and gives that name back. Together with the route
/// round trip above, a client that posts such a body gets the same name
/// from the service afterwards.
pub proof fn lemma_rendered_body_parses(name: Seq<u8>)
    ensures
        parse_body_spec(rendered_body(name)) == Some(name),
{
    let s = rendered_body(name);
    let el = escaped(name).len() as int;
    assert(s.len() == el + 11);
    assert(s[0] == 123);
    assert(skip_ws(s, 0) == 0);
    assert forall|k: int| 0 <= k < 6 implies s.subrange(1, 7)[k] == lit_key_name()[k] by {
        assert(s[1 + k] == lit_key_name()[k]);
    }
    assert(s.subrange(1, 7) =~= lit_key_name());
    assert(s[1] == 34);
    assert(skip_ws(s, 1) == 1);
    assert(s[7] == 58);
    assert(skip_ws(s, 7) == 7);
    assert(s[8] == 34);
    assert(skip_ws(s, 8) == 8);
    assert forall|k: int| 0 <= k < el implies s[9 + k] == #[trigger] escaped(name)[k] by {
    }
    assert(s[9 + el] == 34);
    lemma_parse_escaped(s, 9, name);
    assert(s[10 + el] == 125);
    assert(skip_ws(s, 10 + el) == 10 + el);
    assert(skip_ws(s, 11 + el) == s.len());
}

} // verus!
