//! Requests that name a device and an instruction, and what is answered.

use vstd::prelude::*;
use std::sync::Arc;
use crate::devices::registry::Registry;
use crate::inventory::config::DeviceConfig;
use crate::ordered::in_order;
use crate::protocol::commands::Command;
use crate::protocol::instructions::{echoed, setting_echoed, Decode, Instruction, Reply};
use crate::protocol::payload_helpers;
use crate::protocol::payload_helpers::{RCDR, RCDR_LOWER};
use crate::protocol::register::{Register, MAX_VALUE_LEN};
use crate::protocol::value::{hyphenated, pairs_model, DecodedModel, Value};
use crate::sorted::{is_sorted_copy, sort_by_id, with_id, Identified};
use crate::text;
use crate::text::join3;

verus! {

/// A request that failed.
#[derive(Debug, PartialEq, Eq)]
pub enum AppError {
    UnknownDevice(String),
    BadInstruction(String),
    Device(String),
}

impl AppError {
    /// The status code of the answer.
    pub fn status(&self) -> (r: u16)
        ensures
            r == match self {
                AppError::UnknownDevice(_) => 404u16,
                AppError::BadInstruction(_) => 400u16,
                AppError::Device(_) => 502u16,
            },
    {
        match self {
            AppError::UnknownDevice(_) => 404,
            AppError::BadInstruction(_) => 400,
            AppError::Device(_) => 502,
        }
    }

    /// The message of the answer.
    pub fn message(&self) -> (r: String)
        ensures
            r@ == match self {
                AppError::UnknownDevice(id) => "unknown device '"@ + id@ + "'"@,
                AppError::BadInstruction(e) => e@,
                AppError::Device(e) => e@,
            },
    {
        match self {
            AppError::UnknownDevice(id) => join3("unknown device '", id.as_str(), "'"),
            AppError::BadInstruction(e) => e.clone(),
            AppError::Device(e) => e.clone(),
        }
    }
}

pub open spec fn bad_instruction(e: AppError, name: Seq<char>) -> bool {
    e matches AppError::BadInstruction(m) && m@ == "no built-in instruction named '"@ + name + "'"@
}

/// The instruction of a command request.
pub fn command(name: &str) -> (r: Result<Instruction<Reply>, AppError>)
    ensures
        r is Ok <==> Command::named(payload_helpers::normal_all(name@)) is Some,
        r is Err ==> bad_instruction(r->Err_0, name@),
        r is Ok ==> ({
            let c = Command::named(payload_helpers::normal_all(name@))->0;
            &&& r->Ok_0.name@ == c.spelling()
            &&& r->Ok_0.payload@ == payload_helpers::framed(c.verb_text() + RCDR@)
            &&& forall|b: Seq<char>|
                #[trigger] r->Ok_0.parser.decoded(b) == echoed(RCDR_LOWER@ + c.verb_text(), b)
        }),
{
    match Command::from_name(name) {
        Ok(c) => Ok(c.instruction()),
        Err(e) => Err(AppError::BadInstruction(e.message())),
    }
}

/// The instruction of a register request. The one register whose address is not
/// known cannot be asked for.
pub fn register(name: &str, value: &str) -> (r: Result<Instruction<Reply>, AppError>)
    requires
        payload_helpers::normal_all(name@) != Register::Creator.spelling(),
    ensures
        r is Err ==> bad_instruction(r->Err_0, name@) && forall|x: Register|
            #[trigger] x.spelling() != payload_helpers::normal_all(name@),
        r is Ok ==> exists|x: Register|
            #![trigger x.spelling()]
            x.addressed() && x.spelling() == payload_helpers::normal_all(name@)
                && r->Ok_0.name@ == x.spelling() && r->Ok_0.payload@ == payload_helpers::framed(
                x.address_text() + "*"@ + payload_helpers::first_chars(value@, MAX_VALUE_LEN as nat)
                    + RCDR@,
            ) && forall|b: Seq<char>|
                #[trigger] r->Ok_0.parser.decoded(b) == setting_echoed(
                    RCDR_LOWER@ + x.address_text() + "*"@,
                    b,
                ),
{
    match Register::from_name(name) {
        Ok(x) => {
            assert(x.spelling() == payload_helpers::normal_all(name@));
            Ok(x.instruction(value))
        },
        Err(e) => Err(AppError::BadInstruction(e.message())),
    }
}

/// The device of a request.
pub fn target(registry: &Registry, id: &str) -> (r: Result<Arc<DeviceConfig>, AppError>)
    ensures
        r is Ok <==> registry@.contains_key(id@),
        r is Ok ==> *(r->Ok_0) == registry@[id@],
        r is Err ==> (r->Err_0 matches AppError::UnknownDevice(d) && d@ == id@),
{
    match registry.device(id) {
        Some(device) => Ok(device),
        None => Err(AppError::UnknownDevice(id.to_owned())),
    }
}

impl Identified for String {
    open spec fn key(&self) -> Seq<char> {
        self@
    }

    fn id_text(&self) -> (r: &str) {
        self.as_str()
    }
}

proof fn sorted_ids(sorted: Seq<String>, ids: Seq<String>)
    requires
        is_sorted_copy(sorted, ids),
        text::views(ids).no_duplicates(),
    ensures
        in_order(text::views(sorted)),
        forall|k: Seq<char>| #[trigger]
            text::views(sorted).contains(k) <==> text::views(ids).contains(k),
{
    assert forall|k: Seq<char>| #[trigger]
        text::views(sorted).contains(k) <==> text::views(ids).contains(k) by {
        assert(with_id(sorted, k) == with_id(ids, k));
        some_with_id(sorted, k);
        some_with_id(ids, k);
    }
    assert forall|i: int, j: int| 0 <= i < j < text::views(sorted).len() implies text::lex_lt(
        #[trigger] text::views(sorted)[i],
        #[trigger] text::views(sorted)[j],
    ) by {
        assert(!text::lex_lt(sorted[j].key(), sorted[i].key()));
        if sorted[i]@ == sorted[j]@ {
            let k = sorted[i]@;
            assert(with_id(sorted, k) == with_id(ids, k));
            at_least_two(sorted, k, i, j);
            at_most_one(ids, k);
        } else {
            text::lex_total(sorted[i]@, sorted[j]@);
        }
    }
}

proof fn some_with_id(items: Seq<String>, id: Seq<char>)
    ensures
        with_id(items, id).len() > 0 <==> text::views(items).contains(id),
    decreases items.len(),
{
    reveal(Seq::filter);
    let v = text::views(items);
    if items.len() > 0 {
        let shorter = items.drop_last();
        some_with_id(shorter, id);
        let w = text::views(shorter);
        if w.contains(id) {
            let x = choose|x: int| 0 <= x < w.len() && w[x] == id;
            assert(v[x] == id);
        }
        if v.contains(id) {
            let x = choose|x: int| 0 <= x < v.len() && v[x] == id;
            if x < w.len() {
                assert(w[x] == id);
            }
        }
        if items.last()@ == id {
            assert(v[v.len() - 1] == id);
        }
    }
}

proof fn at_least_two(items: Seq<String>, id: Seq<char>, i: int, j: int)
    requires
        0 <= i < j < items.len(),
        items[i]@ == id,
        items[j]@ == id,
    ensures
        with_id(items, id).len() >= 2,
    decreases items.len(),
{
    reveal(Seq::filter);
    let shorter = items.drop_last();
    if j < shorter.len() {
        at_least_two(shorter, id, i, j);
    } else {
        some_with_id(shorter, id);
        assert(text::views(shorter)[i] == id);
    }
}

proof fn at_most_one(items: Seq<String>, id: Seq<char>)
    requires
        text::views(items).no_duplicates(),
    ensures
        with_id(items, id).len() <= 1,
    decreases items.len(),
{
    reveal(Seq::filter);
    if items.len() > 0 {
        let shorter = items.drop_last();
        let v = text::views(items);
        let w = text::views(shorter);
        assert forall|x: int, y: int| 0 <= x < w.len() && 0 <= y < w.len() && x != y implies w[x]
            != w[y] by {
            assert(w[x] == v[x] && w[y] == v[y]);
        }
        at_most_one(shorter, id);
        some_with_id(shorter, id);
        if items.last()@ == id && w.contains(id) {
            let x = choose|x: int| 0 <= x < w.len() && w[x] == id;
            assert(v[x] == v[v.len() - 1]);
        }
    }
}

/// The ids of every device, in order.
pub fn list_devices(registry: &Registry) -> (r: Vec<String>)
    ensures
        in_order(text::views(r@)),
        forall|k: Seq<char>| #[trigger] text::views(r@).contains(k) <==> registry@.contains_key(k),
{
    let ids: Vec<String> = registry.ids();
    let ghost all = ids@;
    let sorted: Vec<String> = sort_by_id(ids);
    proof {
        sorted_ids(sorted@, all);
    }
    sorted
}

/// A value as a caller takes it: ports and numbers are integers, flags are flags,
/// alarms are a list, and all else is text.
#[derive(Debug, PartialEq, Eq)]
pub enum Native {
    Integer(u32),
    Flag(bool),
    Alarms(Vec<(String, String)>),
    Text(String),
}

pub enum NativeModel {
    Integer(u32),
    Flag(bool),
    Alarms(Seq<(Seq<char>, Seq<char>)>),
    Text(Seq<char>),
}

impl View for Native {
    type V = NativeModel;

    open spec fn view(&self) -> NativeModel {
        match self {
            Native::Integer(n) => NativeModel::Integer(*n),
            Native::Flag(b) => NativeModel::Flag(*b),
            Native::Alarms(a) => NativeModel::Alarms(pairs_model(a@)),
            Native::Text(s) => NativeModel::Text(s@),
        }
    }
}

pub open spec fn native_of(value: DecodedModel) -> NativeModel {
    match value {
        DecodedModel::Port(p) => NativeModel::Integer(p as u32),
        DecodedModel::Number(n) => NativeModel::Integer(n),
        DecodedModel::Flag(b) => NativeModel::Flag(b),
        DecodedModel::Alarms(a) => NativeModel::Alarms(a),
        DecodedModel::Text(s) | DecodedModel::Version(s) | DecodedModel::Ack(s) =>
            NativeModel::Text(s),
        DecodedModel::Mac(bytes) => NativeModel::Text(hyphenated(bytes)),
        DecodedModel::State(s) => NativeModel::Text(s.spelling()),
    }
}

/// Turns a decoded reply into the value a caller takes.
pub fn native(value: Value) -> (r: Native)
    ensures
        r@ == native_of(value@),
{
    match value {
        Value::Port(p) => Native::Integer(p as u32),
        Value::Number(n) => Native::Integer(n),
        Value::Flag(b) => Native::Flag(b),
        Value::Alarms(a) => Native::Alarms(a),
        Value::Text(s) => Native::Text(s),
        Value::Version(s) => Native::Text(s),
        Value::Ack(s) => Native::Text(s),
        Value::Mac(m) => Native::Text(m.rendered()),
        Value::State(s) => Native::Text(s.name().to_owned()),
    }
}

} // verus!
