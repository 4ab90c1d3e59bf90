//! The request router: matches a request (method, path, body) against the
//! fixed route table, drives the store, and shapes the response.

use vstd::prelude::*;
use crate::json::list_json;
use crate::json::parse_body;
use crate::json::parse_body_spec;
use crate::json::person_json;
use crate::json::spec_list_json;
use crate::json::spec_person_json;
use crate::num::dec_rep;
use crate::num::parse_u64;
use crate::num::parse_u64_spec;
use crate::num::u64_to_dec;
use crate::json::append_bytes;
use crate::store::can_alloc;
use crate::store::spec_add;
use crate::store::spec_delete;
use crate::store::spec_find;
use crate::store::spec_update;
use crate::store::PersonStore;

verus! {

/// The request methods the router tells apart; everything else falls to the
/// default route.
#[derive(Clone, Copy, PartialEq, Eq, Structural, Debug)]
pub enum Method {
    Get,
    Post,
    Put,
    Delete,
    Other,
}

/// An HTTP-shaped response: a status code and a body.
pub struct Response {
    pub status: u16,
    pub body: Vec<u8>,
}

/// The path `/`.
pub open spec fn lit_root() -> Seq<u8> {
    seq![47u8]
}

/// The path `/all`.
pub open spec fn lit_all() -> Seq<u8> {
    seq![47u8, 97u8, 108u8, 108u8]
}

/// The path `/add`.
pub open spec fn lit_add() -> Seq<u8> {
    seq![47u8, 97u8, 100u8, 100u8]
}

/// The prefix `/person/`.
pub open spec fn lit_person_pre() -> Seq<u8> {
    seq![47u8, 112u8, 101u8, 114u8, 115u8, 111u8, 110u8, 47u8]
}

/// The prefix `/delete/`.
pub open spec fn lit_delete_pre() -> Seq<u8> {
    seq![47u8, 100u8, 101u8, 108u8, 101u8, 116u8, 101u8, 47u8]
}

/// The prefix `/update/`.
pub open spec fn lit_update_pre() -> Seq<u8> {
    seq![47u8, 117u8, 112u8, 100u8, 97u8, 116u8, 101u8, 47u8]
}

/// The body `Hello World!`.
pub open spec fn lit_hello() -> Seq<u8> {
    seq![72u8, 101u8, 108u8, 108u8, 111u8, 32u8, 87u8, 111u8, 114u8, 108u8, 100u8, 33u8]
}

/// The body `New Person added!`.
pub open spec fn lit_added() -> Seq<u8> {
    seq![
        78u8,
        101u8,
        119u8,
        32u8,
        80u8,
        101u8,
        114u8,
        115u8,
        111u8,
        110u8,
        32u8,
        97u8,
        100u8,
        100u8,
        101u8,
        100u8,
        33u8,
    ]
}

/// The body `404 | Not Found!` of the default route.
pub open spec fn lit_not_found_route() -> Seq<u8> {
    seq![
        52u8,
        48u8,
        52u8,
        32u8,
        124u8,
        32u8,
        78u8,
        111u8,
        116u8,
        32u8,
        70u8,
        111u8,
        117u8,
        110u8,
        100u8,
        33u8,
    ]
}

/// The body `400 | Bad Request!` of malformed requests.
pub open spec fn lit_bad_request() -> Seq<u8> {
    seq![
        52u8,
        48u8,
        48u8,
        32u8,
        124u8,
        32u8,
        66u8,
        97u8,
        100u8,
        32u8,
        82u8,
        101u8,
        113u8,
        117u8,
        101u8,
        115u8,
        116u8,
        33u8,
    ]
}

/// The prefix `Person id : ` of the id-bearing text bodies.
pub open spec fn lit_person_id_pre() -> Seq<u8> {
    seq![80u8, 101u8, 114u8, 115u8, 111u8, 110u8, 32u8, 105u8, 100u8, 32u8, 58u8, 32u8]
}

/// The suffix ` Not Found`.
pub open spec fn lit_sfx_not_found() -> Seq<u8> {
    seq![32u8, 78u8, 111u8, 116u8, 32u8, 70u8, 111u8, 117u8, 110u8, 100u8]
}

/// The suffix ` removed`.
pub open spec fn lit_sfx_removed() -> Seq<u8> {
    seq![32u8, 114u8, 101u8, 109u8, 111u8, 118u8, 101u8, 100u8]
}

/// The suffix ` updated`.
pub open spec fn lit_sfx_updated() -> Seq<u8> {
    seq![32u8, 117u8, 112u8, 100u8, 97u8, 116u8, 101u8, 100u8]
}

/// The suffix ` not found`.
pub open spec fn lit_sfx_not_found_lc() -> Seq<u8> {
    seq![32u8, 110u8, 111u8, 116u8, 32u8, 102u8, 111u8, 117u8, 110u8, 100u8]
}

/// `Person id : <id> Not Found`.
pub open spec fn msg_not_found(id: int) -> Seq<u8> {
    lit_person_id_pre() + dec_rep(id as nat) + lit_sfx_not_found()
}

/// `Person id : <id> removed`.
pub open spec fn msg_removed(id: int) -> Seq<u8> {
    lit_person_id_pre() + dec_rep(id as nat) + lit_sfx_removed()
}

/// `Person id : <id> updated`.
pub open spec fn msg_updated(id: int) -> Seq<u8> {
    lit_person_id_pre() + dec_rep(id as nat) + lit_sfx_updated()
}

/// `Person id : <id> not found`.
pub open spec fn msg_not_found_lc(id: int) -> Seq<u8> {
    lit_person_id_pre() + dec_rep(id as nat) + lit_sfx_not_found_lc()
}

/// The first position at or after `i` holding a slash, or the end.
pub open spec fn seg_end(p: Seq<u8>, i: int) -> int
    decreases p.len() - i when 0 <= i <= p.len()
{
    if i < p.len() && p[i] != 47 {
        seg_end(p, i + 1)
    } else {
        i
    }
}

/// The third path segment: what stands between the second slash and the next
/// slash or the end. Trailing segments are ignored, as the route table says.
pub open spec fn seg2(p: Seq<u8>) -> Seq<u8>
    recommends
        p.len() >= 8,
{
    p.subrange(8, seg_end(p, 8))
}

/// The path starts with `/person/`.
pub open spec fn is_person_path(p: Seq<u8>) -> bool {
    p.len() >= 8 && p.subrange(0, 8) == lit_person_pre()
}

/// The path starts with `/delete/`.
pub open spec fn is_delete_path(p: Seq<u8>) -> bool {
    p.len() >= 8 && p.subrange(0, 8) == lit_delete_pre()
}

/// The path starts with `/update/`.
pub open spec fn is_update_path(p: Seq<u8>) -> bool {
    p.len() >= 8 && p.subrange(0, 8) == lit_update_pre()
}

/// What the router does with a request: the store afterwards, the status
/// code, and the response body, route by route.
pub open spec fn handle_spec(
    s: Seq<(int, Seq<u8>)>,
    m: Method,
    p: Seq<u8>,
    b: Seq<u8>,
) -> (Seq<(int, Seq<u8>)>, int, Seq<u8>) {
    if m == Method::Get && p == lit_root() {
        (s, 200, lit_hello())
    } else if m == Method::Get && p == lit_all() {
        (s, 200, spec_list_json(s))
    } else if m == Method::Get && is_person_path(p) {
        match parse_u64_spec(seg2(p)) {
            None => (s, 400, lit_bad_request()),
            Some(id) => match spec_find(s, id as int) {
                Some(pr) => (s, 200, spec_person_json(pr.0, pr.1)),
                None => (s, 404, msg_not_found(id as int)),
            },
        }
    } else if m == Method::Post && p == lit_add() {
        match parse_body_spec(b) {
            None => (s, 400, lit_bad_request()),
            Some(name) => (spec_add(s, name), 200, lit_added()),
        }
    } else if m == Method::Delete && is_delete_path(p) {
        match parse_u64_spec(seg2(p)) {
            None => (s, 400, lit_bad_request()),
            Some(id) => match spec_find(s, id as int) {
                Some(_) => (spec_delete(s, id as int), 200, msg_removed(id as int)),
                None => (s, 404, msg_not_found(id as int)),
            },
        }
    } else if m == Method::Put && is_update_path(p) {
        match parse_u64_spec(seg2(p)) {
            None => (s, 400, lit_bad_request()),
            Some(id) => match parse_body_spec(b) {
                None => (s, 400, lit_bad_request()),
                Some(name) => match spec_find(s, id as int) {
                    Some(_) => (spec_update(s, id as int, name), 200, msg_updated(id as int)),
                    None => (s, 404, msg_not_found_lc(id as int)),
                },
            },
        }
    } else {
        (s, 404, lit_not_found_route())
    }
}

} // verus!

verus! {

/// Builds `Hello World!`.
fn mk_hello() -> (r: Vec<u8>)
    ensures
        r@ == lit_hello(),
{
    let mut r: Vec<u8> = Vec::new();
    r.push(72);
    r.push(101);
    r.push(108);
    r.push(108);
    r.push(111);
    r.push(32);
    r.push(87);
    r.push(111);
    r.push(114);
    r.push(108);
    r.push(100);
    r.push(33);
    proof {
        assert(r@ =~= lit_hello());
    }
    r
}

/// Builds `New Person added!`.
fn mk_added() -> (r: Vec<u8>)
    ensures
        r@ == lit_added(),
{
    let mut r: Vec<u8> = Vec::new();
    r.push(78);
    r.push(101);
    r.push(119);
    r.push(32);
    r.push(80);
    r.push(101);
    r.push(114);
    r.push(115);
    r.push(111);
    r.push(110);
    r.push(32);
    r.push(97);
    r.push(100);
    r.push(100);
    r.push(101);
    r.push(100);
    r.push(33);
    proof {
        assert(r@ =~= lit_added());
    }
    r
}

/// Builds `404 | Not Found!`.
fn mk_not_found_route() -> (r: Vec<u8>)
    ensures
        r@ == lit_not_found_route(),
{
    let mut r: Vec<u8> = Vec::new();
    r.push(52);
    r.push(48);
    r.push(52);
    r.push(32);
    r.push(124);
    r.push(32);
    r.push(78);
    r.push(111);
    r.push(116);
    r.push(32);
    r.push(70);
    r.push(111);
    r.push(117);
    r.push(110);
    r.push(100);
    r.push(33);
    proof {
        assert(r@ =~= lit_not_found_route());
    }
    r
}

/// Builds `400 | Bad Request!`.
fn mk_bad_request() -> (r: Vec<u8>)
    ensures
        r@ == lit_bad_request(),
{
    let mut r: Vec<u8> = Vec::new();
    r.push(52);
    r.push(48);
    r.push(48);
    r.push(32);
    r.push(124);
    r.push(32);
    r.push(66);
    r.push(97);
    r.push(100);
    r.push(32);
    r.push(82);
    r.push(101);
    r.push(113);
    r.push(117);
    r.push(101);
    r.push(115);
    r.push(116);
    r.push(33);
    proof {
        assert(r@ =~= lit_bad_request());
    }
    r
}

/// Builds `Person id : <id>` and leaves room for a suffix.
fn mk_person_id_msg(id: u64) -> (r: Vec<u8>)
    ensures
        r@ == lit_person_id_pre() + dec_rep(id as nat),
{
    let mut r: Vec<u8> = Vec::new();
    r.push(80);
    r.push(101);
    r.push(114);
    r.push(115);
    r.push(111);
    r.push(110);
    r.push(32);
    r.push(105);
    r.push(100);
    r.push(32);
    r.push(58);
    r.push(32);
    proof {
        assert(r@ =~= lit_person_id_pre());
    }
    let dec = u64_to_dec(id);
    append_bytes(&mut r, &dec);
    r
}

/// Builds `Person id : <id> Not Found`.
fn mk_msg_not_found(id: u64) -> (r: Vec<u8>)
    ensures
        r@ == msg_not_found(id as int),
{
    let mut r = mk_person_id_msg(id);
    r.push(32);
    r.push(78);
    r.push(111);
    r.push(116);
    r.push(32);
    r.push(70);
    r.push(111);
    r.push(117);
    r.push(110);
    r.push(100);
    proof {
        assert(r@ =~= msg_not_found(id as int));
    }
    r
}

/// Builds `Person id : <id> removed`.
fn mk_msg_removed(id: u64) -> (r: Vec<u8>)
    ensures
        r@ == msg_removed(id as int),
{
    let mut r = mk_person_id_msg(id);
    r.push(32);
    r.push(114);
    r.push(101);
    r.push(109);
    r.push(111);
    r.push(118);
    r.push(101);
    r.push(100);
    proof {
        assert(r@ =~= msg_removed(id as int));
    }
    r
}

/// Builds `Person id : <id> updated`.
fn mk_msg_updated(id: u64) -> (r: Vec<u8>)
    ensures
        r@ == msg_updated(id as int),
{
    let mut r = mk_person_id_msg(id);
    r.push(32);
    r.push(117);
    r.push(112);
    r.push(100);
    r.push(97);
    r.push(116);
    r.push(101);
    r.push(100);
    proof {
        assert(r@ =~= msg_updated(id as int));
    }
    r
}

/// Builds `Person id : <id> not found`.
fn mk_msg_not_found_lc(id: u64) -> (r: Vec<u8>)
    ensures
        r@ == msg_not_found_lc(id as int),
{
    let mut r = mk_person_id_msg(id);
    r.push(32);
    r.push(110);
    r.push(111);
    r.push(116);
    r.push(32);
    r.push(102);
    r.push(111);
    r.push(117);
    r.push(110);
    r.push(100);
    proof {
        assert(r@ =~= msg_not_found_lc(id as int));
    }
    r
}

/// Whether the path is exactly `/`.
fn path_is_root(p: &Vec<u8>) -> (r: bool)
    ensures
        r == (p@ == lit_root()),
{
    let r = p.len() == 1 && p[0] == 47;
    proof {
        if r {
            assert(p@ =~= lit_root());
        } else {
            assert(lit_root().len() == 1);
            if p@.len() == 1 {
                assert(p@[0] != 47);
            }
        }
    }
    r
}

/// Whether the path is exactly `/all`.
fn path_is_all(p: &Vec<u8>) -> (r: bool)
    ensures
        r == (p@ == lit_all()),
{
    let r = p.len() == 4 && p[0] == 47 && p[1] == 97 && p[2] == 108 && p[3] == 108;
    proof {
        if r {
            assert(p@ =~= lit_all());
        }
    }
    r
}

/// Whether the path is exactly `/add`.
fn path_is_add(p: &Vec<u8>) -> (r: bool)
    ensures
        r == (p@ == lit_add()),
{
    let r = p.len() == 4 && p[0] == 47 && p[1] == 97 && p[2] == 100 && p[3] == 100;
    proof {
        if r {
            assert(p@ =~= lit_add());
        }
    }
    r
}

/// Whether the path starts with `/person/`.
fn path_is_person(p: &Vec<u8>) -> (r: bool)
    ensures
        r == is_person_path(p@),
{
    if p.len() < 8 {
        return false;
    }
    let r = p[0] == 47 && p[1] == 112 && p[2] == 101 && p[3] == 114 && p[4] == 115 && p[5] == 111
        && p[6] == 110 && p[7] == 47;
    proof {
        let sub = p@.subrange(0, 8);
        assert(sub[0] == p@[0]);
        assert(sub[1] == p@[1]);
        assert(sub[2] == p@[2]);
        assert(sub[3] == p@[3]);
        assert(sub[4] == p@[4]);
        assert(sub[5] == p@[5]);
        assert(sub[6] == p@[6]);
        assert(sub[7] == p@[7]);
        if r {
            assert(sub =~= lit_person_pre());
        }
    }
    r
}

/// Whether the path starts with `/delete/`.
fn path_is_delete(p: &Vec<u8>) -> (r: bool)
    ensures
        r == is_delete_path(p@),
{
    if p.len() < 8 {
        return false;
    }
    let r = p[0] == 47 && p[1] == 100 && p[2] == 101 && p[3] == 108 && p[4] == 101 && p[5] == 116
        && p[6] == 101 && p[7] == 47;
    proof {
        let sub = p@.subrange(0, 8);
        assert(sub[0] == p@[0]);
        assert(sub[1] == p@[1]);
        assert(sub[2] == p@[2]);
        assert(sub[3] == p@[3]);
        assert(sub[4] == p@[4]);
        assert(sub[5] == p@[5]);
        assert(sub[6] == p@[6]);
        assert(sub[7] == p@[7]);
        if r {
            assert(sub =~= lit_delete_pre());
        }
    }
    r
}

/// Whether the path starts with `/update/`.
fn path_is_update(p: &Vec<u8>) -> (r: bool)
    ensures
        r == is_update_path(p@),
{
    if p.len() < 8 {
        return false;
    }
    let r = p[0] == 47 && p[1] == 117 && p[2] == 112 && p[3] == 100 && p[4] == 97 && p[5] == 116
        && p[6] == 101 && p[7] == 47;
    proof {
        let sub = p@.subrange(0, 8);
        assert(sub[0] == p@[0]);
        assert(sub[1] == p@[1]);
        assert(sub[2] == p@[2]);
        assert(sub[3] == p@[3]);
        assert(sub[4] == p@[4]);
        assert(sub[5] == p@[5]);
        assert(sub[6] == p@[6]);
        assert(sub[7] == p@[7]);
        if r {
            assert(sub =~= lit_update_pre());
        }
    }
    r
}

/// Copies the third path segment out of a path with an 8-byte route prefix.
fn seg_after_prefix(p: &Vec<u8>) -> (seg: Vec<u8>)
    requires
        p.len() >= 8,
    ensures
        seg@ == seg2(p@),
{
    let mut k: usize = 8;
    while k < p.len() && p[k] != 47
        invariant
            8 <= k <= p.len(),
            seg_end(p@, 8) == seg_end(p@, k as int),
        decreases p.len() - k,
    {
        k = k + 1;
    }
    let mut seg: Vec<u8> = Vec::new();
    let mut j: usize = 8;
    proof {
        assert(seg@ =~= p@.subrange(8, 8));
    }
    while j < k
        invariant
            8 <= j <= k <= p.len(),
            seg@ == p@.subrange(8, j as int),
        decreases k - j,
    {
        seg.push(p[j]);
        proof {
            assert(seg@ =~= p@.subrange(8, j + 1));
        }
        j = j + 1;
    }
    seg
}

/// Handles one request: matches it against the route table, performs the one
/// store operation of the matched route, and shapes the response, exactly as
/// `handle_spec` says. Malformed ids and bodies come back as client errors;
/// the store invariant is kept whatever the request was.
pub fn handle_request(store: &mut PersonStore, m: Method, path: &Vec<u8>, body: &Vec<u8>) -> (r:
    Response)
    requires
        old(store).wf(),
        m == Method::Post && path@ == lit_add() && parse_body_spec(body@) is Some ==> can_alloc(
            old(store)@,
        ),
    ensures
        final(store)@ == handle_spec(old(store)@, m, path@, body@).0,
        r.status as int == handle_spec(old(store)@, m, path@, body@).1,
        r.body@ == handle_spec(old(store)@, m, path@, body@).2,
        final(store).wf(),
{
    if m == Method::Get && path_is_root(path) {
        Response { status: 200, body: mk_hello() }
    } else if m == Method::Get && path_is_all(path) {
        let body_out = list_json(&store.list);
        Response { status: 200, body: body_out }
    } else if m == Method::Get && path_is_person(path) {
        let seg = seg_after_prefix(path);
        match parse_u64(&seg) {
            None => Response { status: 400, body: mk_bad_request() },
            Some(id) => match store.find_by_id(id) {
                Some(p) => {
                    let body_out = person_json(p.id, &p.name);
                    Response { status: 200, body: body_out }
                },
                None => Response { status: 404, body: mk_msg_not_found(id) },
            },
        }
    } else if m == Method::Post && path_is_add(path) {
        match parse_body(body) {
            None => Response { status: 400, body: mk_bad_request() },
            Some(name) => {
                let _p = store.add(name);
                Response { status: 200, body: mk_added() }
            },
        }
    } else if m == Method::Delete && path_is_delete(path) {
        let seg = seg_after_prefix(path);
        match parse_u64(&seg) {
            None => Response { status: 400, body: mk_bad_request() },
            Some(id) => {
                let removed = store.delete_by_id(id);
                if removed {
                    Response { status: 200, body: mk_msg_removed(id) }
                } else {
                    Response { status: 404, body: mk_msg_not_found(id) }
                }
            },
        }
    } else if m == Method::Put && path_is_update(path) {
        let seg = seg_after_prefix(path);
        match parse_u64(&seg) {
            None => Response { status: 400, body: mk_bad_request() },
            Some(id) => match parse_body(body) {
                None => Response { status: 400, body: mk_bad_request() },
                Some(name) => match store.update_by_id(id, name) {
                    Some(_p) => Response { status: 200, body: mk_msg_updated(id) },
                    None => Response { status: 404, body: mk_msg_not_found_lc(id) },
                },
            },
        }
    } else {
        Response { status: 404, body: mk_not_found_route() }
    }
}

} // verus!
