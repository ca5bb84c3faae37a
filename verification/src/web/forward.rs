//! The answers of the `/iptables` endpoints.

use vstd::prelude::*;

verus! {

/// A JSON answer: `code` 1 with data, 0 without, and a message.
#[derive(Debug)]
pub struct JsonData<T> {
    pub code: i32,
    pub msg: String,
    pub data: Option<T>,
}

/// The message of an answer: the one given, else `default`.
pub open spec fn message_or(msg: Option<&str>, default: Seq<char>) -> Seq<char> {
    match msg {
        Some(m) => m@,
        None => default,
    }
}

impl<T> JsonData<T> {
    /// The answer: a success when there is data, a failure otherwise.
    pub fn response(msg: Option<&str>, data: Option<T>) -> (r: JsonData<T>)
        ensures
            data is Some ==> r.code == 1 && r.msg@ == message_or(msg, "Success"@),
            data is None ==> r.code == 0 && r.msg@ == message_or(msg, "Fail"@),
            r.data == data,
    {
        if data.is_some() {
            JsonData::success(msg, data)
        } else {
            JsonData::fail(msg, data)
        }
    }

    /// A failed answer: code 0, the message given or `Fail`.
    pub fn fail(msg: Option<&str>, data: Option<T>) -> (r: JsonData<T>)
        ensures
            r.code == 0,
            r.msg@ == message_or(msg, "Fail"@),
            r.data == data,
    {
        let msg = match msg {
            Some(m) => String::from_str(m),
            None => String::from_str("Fail"),
        };
        JsonData { code: 0, msg, data }
    }

    /// A successful answer: code 1, the message given or `Success`.
    pub fn success(msg: Option<&str>, data: Option<T>) -> (r: JsonData<T>)
        ensures
            r.code == 1,
            r.msg@ == message_or(msg, "Success"@),
            r.data == data,
    {
        let msg = match msg {
            Some(m) => String::from_str(m),
            None => String::from_str("Success"),
        };
        JsonData { code: 1, msg, data }
    }
}

/// The answer to an add or delete request: `Success` with unit data when it
/// went through, else a failure that carries the error message.
pub fn outcome_response(outcome: Result<(), String>) -> (r: JsonData<()>)
    ensures
        match outcome {
            Ok(()) => r.code == 1 && r.msg@ == "Success"@ && r.data == Some(()),
            Err(e) => r.code == 0 && r.msg@ == e@ && r.data is None,
        },
{
    match outcome {
        Ok(()) => JsonData::response(None, Some(())),
        Err(e) => JsonData::response(Some(e.as_str()), None),
    }
}

} // verus!
