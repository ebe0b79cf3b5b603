//! JSON-RPC v1 message shapes used by Stratum V1: requests, notifications
//! and responses, each rendered as a JSON object.

use vstd::prelude::*;
use vstd::string::StrSliceExecFns;
use vstd::string::StringSliceAdditionalSpecFns;
use crate::json::JsonValue;

verus! {

/// A client request that expects an answer.
#[derive(Debug, PartialEq, Eq)]
pub struct StandardRequest {
    /// Request id echoed by the response.
    pub id: u64,
    /// Method name, as UTF-8 bytes.
    pub method: Vec<u8>,
    /// Method parameters.
    pub params: JsonValue,
}

/// A server-initiated message that expects no answer.
#[derive(Debug, PartialEq, Eq)]
pub struct Notification {
    /// Method name, as UTF-8 bytes.
    pub method: Vec<u8>,
    /// Method parameters.
    pub params: JsonValue,
}

/// A successful answer to a request.
#[derive(Debug, PartialEq, Eq)]
pub struct Response {
    /// Id of the request answered.
    pub id: u64,
    /// Error value; absent on success.
    pub error: Option<JsonValue>,
    /// The result value.
    pub result: JsonValue,
}

/// Any JSON-RPC v1 message.
#[derive(Debug, PartialEq, Eq)]
pub enum Message {
    StandardRequest(StandardRequest),
    Notification(Notification),
    OkResponse(Response),
}

impl Message {
    /// The message as a JSON object: a request carries `id`, `method` and
    /// `params`; a notification `method` and `params`; a response `id`,
    /// `error` and `result`.
    pub fn into_json(self) -> (r: JsonValue)
        ensures
            ({
                match self {
                    Message::StandardRequest(q) => {
                        let fs = r->Object_0@;
                        &&& r is Object
                        &&& fs.len() == 3
                        &&& fs[0].0@ == ("id").spec_bytes()
                        &&& fs[0].1 == JsonValue::Number(q.id)
                        &&& fs[1].0@ == ("method").spec_bytes()
                        &&& (fs[1].1 matches JsonValue::Str(m) && m@ == q.method@)
                        &&& fs[2].0@ == ("params").spec_bytes()
                        &&& fs[2].1 == q.params
                    },
                    Message::Notification(n) => {
                        let fs = r->Object_0@;
                        &&& r is Object
                        &&& fs.len() == 2
                        &&& fs[0].0@ == ("method").spec_bytes()
                        &&& (fs[0].1 matches JsonValue::Str(m) && m@ == n.method@)
                        &&& fs[1].0@ == ("params").spec_bytes()
                        &&& fs[1].1 == n.params
                    },
                    Message::OkResponse(p) => {
                        let fs = r->Object_0@;
                        &&& r is Object
                        &&& fs.len() == 3
                        &&& fs[0].0@ == ("id").spec_bytes()
                        &&& fs[0].1 == JsonValue::Number(p.id)
                        &&& fs[1].0@ == ("error").spec_bytes()
                        &&& (p.error is None ==> fs[1].1 is Null)
                        &&& (p.error matches Some(e) ==> fs[1].1 == e)
                        &&& fs[2].0@ == ("result").spec_bytes()
                        &&& fs[2].1 == p.result
                    },
                }
            }),
    {
        match self {
            Message::StandardRequest(q) => {
                let mut fields: Vec<(Vec<u8>, JsonValue)> = Vec::new();
                fields.push(("id".as_bytes_vec(), JsonValue::Number(q.id)));
                fields.push(("method".as_bytes_vec(), JsonValue::Str(q.method)));
                fields.push(("params".as_bytes_vec(), q.params));
                JsonValue::Object(fields)
            },
            Message::Notification(n) => {
                let mut fields: Vec<(Vec<u8>, JsonValue)> = Vec::new();
                fields.push(("method".as_bytes_vec(), JsonValue::Str(n.method)));
                fields.push(("params".as_bytes_vec(), n.params));
                JsonValue::Object(fields)
            },
            Message::OkResponse(p) => {
                let mut fields: Vec<(Vec<u8>, JsonValue)> = Vec::new();
                fields.push(("id".as_bytes_vec(), JsonValue::Number(p.id)));
                let e = match p.error {
                    Some(e) => e,
                    None => JsonValue::Null,
                };
                fields.push(("error".as_bytes_vec(), e));
                fields.push(("result".as_bytes_vec(), p.result));
                JsonValue::Object(fields)
            },
        }
    }
}

} // verus!
