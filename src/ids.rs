//! Deterministic identifiers: a resource is named by its bytes, a task by its
//! miner, its type and its resource, so that identical submissions collapse.
use vstd::prelude::*;
use vstd::utf8::encode_utf8;
use crate::model::{TaskType, type_code};

verus! {

/// The name-based UUID (version 5, OID namespace) of `name`, in hyphenated lower-case text.
pub uninterp spec fn uuid_v5_oid(name: Seq<u8>) -> Seq<char>;

/// Relies on `uuid::Uuid::new_v5` with `Uuid::NAMESPACE_OID`, and on its
/// `Display` text, the 36-character hyphenated form: the result depends on
/// the bytes alone.
#[verifier::external_body]
fn uuid_v5_text(name: &[u8]) -> (r: String)
    ensures
        r@ == uuid_v5_oid(name@),
        r@.len() == 36,
{
    uuid::Uuid::new_v5(&uuid::Uuid::NAMESPACE_OID, name).to_string()
}

/// Relies on `uuid::Uuid::new_v4`: a random identifier, in its `Display`
/// text, the 36-character hyphenated form.
#[verifier::external_body]
pub(crate) fn random_uuid_text() -> (r: String)
    ensures
        r@.len() == 36,
{
    uuid::Uuid::new_v4().to_string()
}

/// Big-endian bytes of a 32-bit signed integer.
pub open spec fn be_i32(v: i32) -> Seq<u8> {
    seq![
        ((v as u32) >> 24u32) as u8,
        ((v as u32) >> 16u32) as u8,
        ((v as u32) >> 8u32) as u8,
        (v as u32) as u8,
    ]
}

/// The identifier of a resource holding `data`.
pub open spec fn resource_id_of(data: Seq<u8>) -> Seq<char> {
    uuid_v5_oid(data)
}

/// The bytes a task identifier is derived from: the miner's address payload,
/// the type code in big-endian order, and the resource identifier's text.
pub open spec fn task_id_name(payload: Seq<u8>, task_type: TaskType, data: Seq<u8>) -> Seq<u8> {
    payload + be_i32(type_code(task_type)) + encode_utf8(resource_id_of(data))
}

/// The identifier of the task of type `task_type` on `data` for the miner whose
/// address payload is `payload`.
pub open spec fn task_id_of(payload: Seq<u8>, task_type: TaskType, data: Seq<u8>) -> Seq<char> {
    uuid_v5_oid(task_id_name(payload, task_type, data))
}

/// Appends the bytes of `b` to `out`.
pub fn append_bytes(out: &mut Vec<u8>, b: &[u8])
    ensures
        final(out)@ == old(out)@ + b@,
{
    let ghost start = out@;
    let mut i: usize = 0;
    while i < b.len()
        invariant
            i <= b@.len(),
            out@ == start + b@.subrange(0, i as int),
        decreases b@.len() - i,
    {
        out.push(b[i]);
        i = i + 1;
        assert(out@ =~= start + b@.subrange(0, i as int));
    }
    assert(b@.subrange(0, b@.len() as int) =~= b@);
}

/// The identifier of a resource holding `data`.
pub fn gen_resource_id(data: &[u8]) -> (r: String)
    ensures
        r@ == resource_id_of(data@),
        r@.len() == 36,
{
    uuid_v5_text(data)
}

/// The bytes that the identifier of a task is derived from.
pub fn task_id_input(payload: &[u8], task_type: TaskType, data: &[u8]) -> (r: Vec<u8>)
    ensures
        r@ == task_id_name(payload@, task_type, data@),
{
    let resource_id = gen_resource_id(data);
    let code = task_type.code();
    let mut buf: Vec<u8> = Vec::new();
    append_bytes(&mut buf, payload);
    buf.push(((code as u32) >> 24u32) as u8);
    buf.push(((code as u32) >> 16u32) as u8);
    buf.push(((code as u32) >> 8u32) as u8);
    buf.push((code as u32) as u8);
    append_bytes(&mut buf, resource_id.as_str().as_bytes());
    assert(buf@ =~= payload@ + be_i32(type_code(task_type)) + encode_utf8(resource_id_of(data@)));
    buf
}

/// The identifier of the task of type `task_type` on `data` for the miner
/// whose address payload is `payload`.
pub fn gen_task_id(payload: &[u8], task_type: TaskType, data: &[u8]) -> (r: String)
    ensures
        r@ == task_id_of(payload@, task_type, data@),
        r@.len() == 36,
{
    let name = task_id_input(payload, task_type, data);
    uuid_v5_text(name.as_slice())
}

/// Identifiers are functions of their inputs: the same miner, type and bytes
/// always name the same task, and the same bytes the same resource.
pub proof fn lemma_ids_deterministic(
    p1: Seq<u8>,
    k1: TaskType,
    d1: Seq<u8>,
    p2: Seq<u8>,
    k2: TaskType,
    d2: Seq<u8>,
)
    requires
        p1 == p2,
        k1 == k2,
        d1 == d2,
    ensures
        task_id_of(p1, k1, d1) == task_id_of(p2, k2, d2),
        resource_id_of(d1) == resource_id_of(d2),
{
}

} // verus!
