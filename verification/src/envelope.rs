//! Versioned API envelopes and their errors.
use vstd::prelude::*;

use crate::json::{no_members, put, Json, JsonModel, JsonNumber};

verus! {

/// The protocol that a daemon speaks, and its version.
#[derive(Debug, Clone, Copy, PartialEq, Eq)]
pub struct ApiIdentity {
    pub protocol: &'static str,
    pub version: u64,
}

impl ApiIdentity {
    pub fn new(protocol: &'static str, version: u64) -> (api: Self)
        ensures
            api.protocol@ == protocol@,
            api.version == version,
    {
        ApiIdentity { protocol, version }
    }
}

/// The members that every envelope of an API starts from.
pub open spec fn identity_fields(api: ApiIdentity) -> Map<Seq<char>, JsonModel> {
    map![
        "protocol"@ => JsonModel::Text(api.protocol@),
        "version"@ => JsonModel::Number(JsonNumber::Unsigned(api.version)),
    ]
}

/// The fields of an API error. Optional ones are on the wire only where they are set.
#[derive(Debug, PartialEq)]
pub struct ApiError {
    pub code: String,
    pub message: String,
    pub retryable: Option<bool>,
    pub details: Option<Json>,
}

/// What an API error says.
#[verifier::ext_equal]
pub struct ApiErrorModel {
    pub code: Seq<char>,
    pub message: Seq<char>,
    pub retryable: Option<bool>,
    pub details: Option<JsonModel>,
}

impl View for ApiError {
    type V = ApiErrorModel;

    open spec fn view(&self) -> ApiErrorModel {
        ApiErrorModel {
            code: self.code@,
            message: self.message@,
            retryable: self.retryable,
            details: match self.details {
                Some(details) => Some(details@),
                None => None,
            },
        }
    }
}

impl ApiErrorModel {
    /// The error on the wire: the code and the message, and of the optional
    /// fields those that were set.
    pub open spec fn json(self) -> JsonModel {
        let basic = map![
            "code"@ => JsonModel::Text(self.code),
            "message"@ => JsonModel::Text(self.message),
        ];
        let flagged = match self.retryable {
            Some(retryable) => basic.insert("retryable"@, JsonModel::Bool(retryable)),
            None => basic,
        };
        JsonModel::Object(
            match self.details {
                Some(details) => flagged.insert("details"@, details),
                None => flagged,
            },
        )
    }
}

impl ApiError {
    /// An error without optional fields.
    pub fn new(code: &str, message: &str) -> (error: Self)
        ensures
            error@ == (ApiErrorModel {
                code: code@,
                message: message@,
                retryable: None,
                details: None,
            }),
    {
        ApiError {
            code: code.to_owned(),
            message: message.to_owned(),
            retryable: None,
            details: None,
        }
    }

    /// The error with its retry flag set.
    pub fn with_retryable(self, retryable: bool) -> (error: Self)
        ensures
            error@ == (ApiErrorModel { retryable: Some(retryable), ..self@ }),
    {
        ApiError {
            code: self.code,
            message: self.message,
            retryable: Some(retryable),
            details: self.details,
        }
    }

    /// The error with its details set.
    pub fn with_details(self, details: Json) -> (error: Self)
        ensures
            error@ == (ApiErrorModel { details: Some(details@), ..self@ }),
    {
        ApiError {
            code: self.code,
            message: self.message,
            retryable: self.retryable,
            details: Some(details),
        }
    }

    /// The error on the wire.
    pub fn into_value(self) -> (value: Json)
        ensures
            value@ == self@.json(),
    {
        let ApiError { code, message, retryable, details } = self;
        let mut value = no_members();
        put(&mut value, "code", Json::Text(code));
        put(&mut value, "message", Json::Text(message));
        if let Some(retryable) = retryable {
            put(&mut value, "retryable", Json::Bool(retryable));
        }
        if let Some(details) = details {
            put(&mut value, "details", details);
        }
        Json::from_members(value)
    }
}

/// The members of a successful reply.
pub open spec fn success_fields(api: ApiIdentity, data: JsonModel) -> Map<Seq<char>, JsonModel> {
    identity_fields(api).insert("ok"@, JsonModel::Bool(true)).insert("data"@, data)
}

/// The members of a failed reply.
pub open spec fn error_fields(api: ApiIdentity, failure: ApiErrorModel) -> Map<
    Seq<char>,
    JsonModel,
> {
    identity_fields(api).insert("ok"@, JsonModel::Bool(false)).insert("error"@, failure.json())
}

/// The envelope of a successful reply.
pub fn success(api: ApiIdentity, data: Json) -> (value: Json)
    ensures
        value@ == JsonModel::Object(success_fields(api, data@)),
{
    let mut value = no_members();
    put(&mut value, "protocol", Json::from_text(api.protocol));
    put(&mut value, "version", Json::from_unsigned(api.version));
    put(&mut value, "ok", Json::Bool(true));
    put(&mut value, "data", data);
    Json::from_members(value)
}

/// The envelope of a failed reply.
pub fn error(api: ApiIdentity, failure: ApiError) -> (value: Json)
    ensures
        value@ == JsonModel::Object(error_fields(api, failure@)),
{
    let mut value = no_members();
    put(&mut value, "protocol", Json::from_text(api.protocol));
    put(&mut value, "version", Json::from_unsigned(api.version));
    put(&mut value, "ok", Json::Bool(false));
    put(&mut value, "error", failure.into_value());
    Json::from_members(value)
}

/// Optional error fields are absent until they are requested, and then say what
/// was requested.
pub proof fn optional_error_fields(error: ApiErrorModel)
    ensures
        error.json().field("code"@) == Some(JsonModel::Text(error.code)),
        error.json().field("message"@) == Some(JsonModel::Text(error.message)),
        error.json().field("retryable"@) == match error.retryable {
            Some(retryable) => Some(JsonModel::Bool(retryable)),
            None => None,
        },
        error.json().field("details"@) == error.details,
{
    reveal_strlit("code");
    reveal_strlit("message");
    reveal_strlit("retryable");
    reveal_strlit("details");
    assert("code"@.len() != "message"@.len());
    assert("message"@[0] != "details"@[0]);
    assert("code"@.len() != "details"@.len());
    assert("retryable"@.len() != "message"@.len());
    assert("retryable"@.len() != "details"@.len());
    assert("retryable"@.len() != "code"@.len());
}

proof fn lemma_envelope_names()
    ensures
        "protocol"@ != "version"@,
        "protocol"@ != "ok"@,
        "protocol"@ != "data"@,
        "protocol"@ != "error"@,
        "version"@ != "ok"@,
        "version"@ != "data"@,
        "version"@ != "error"@,
        "ok"@ != "data"@,
        "ok"@ != "error"@,
        "data"@ != "error"@,
{
    reveal_strlit("protocol");
    reveal_strlit("version");
    reveal_strlit("ok");
    reveal_strlit("data");
    reveal_strlit("error");
    assert("protocol"@.len() == 8 && "version"@.len() == 7 && "ok"@.len() == 2);
    assert("data"@.len() == 4 && "error"@.len() == 5);
}

/// A successful reply says which protocol it speaks, that it succeeded, and what it has to
/// say, and nothing else.
pub proof fn successes_carry_their_data(api: ApiIdentity, data: JsonModel)
    ensures
        JsonModel::Object(success_fields(api, data)).field("protocol"@) == Some(
            JsonModel::Text(api.protocol@),
        ),
        JsonModel::Object(success_fields(api, data)).field("version"@) == Some(
            JsonModel::Number(JsonNumber::Unsigned(api.version)),
        ),
        JsonModel::Object(success_fields(api, data)).field("ok"@) == Some(JsonModel::Bool(true)),
        JsonModel::Object(success_fields(api, data)).field("data"@) == Some(data),
        success_fields(api, data).dom() == set!["protocol"@, "version"@, "ok"@, "data"@],
{
    lemma_envelope_names();
    assert(success_fields(api, data).dom() =~= set!["protocol"@, "version"@, "ok"@, "data"@]);
}

/// A failed reply says which protocol it speaks, that it failed, and why, and nothing else.
pub proof fn failures_carry_their_reason(api: ApiIdentity, failure: ApiErrorModel)
    ensures
        JsonModel::Object(error_fields(api, failure)).field("protocol"@) == Some(
            JsonModel::Text(api.protocol@),
        ),
        JsonModel::Object(error_fields(api, failure)).field("version"@) == Some(
            JsonModel::Number(JsonNumber::Unsigned(api.version)),
        ),
        JsonModel::Object(error_fields(api, failure)).field("ok"@) == Some(JsonModel::Bool(false)),
        JsonModel::Object(error_fields(api, failure)).field("error"@) == Some(failure.json()),
        error_fields(api, failure).dom() == set!["protocol"@, "version"@, "ok"@, "error"@],
{
    lemma_envelope_names();
    assert(error_fields(api, failure).dom() =~= set!["protocol"@, "version"@, "ok"@, "error"@]);
}

/// An error on the wire has no other fields than these.
pub proof fn errors_have_no_other_fields(error: ApiErrorModel, key: Seq<char>)
    ensures
        error.json().field(key) is Some ==> key == "code"@ || key == "message"@ || key
            == "retryable"@ || key == "details"@,
{
}

/// What is known of an error is what it was given with.
pub proof fn errors_are_known_as_given(error: ApiError)
    ensures
        error@.code == error.code@,
        error@.message == error.message@,
        error@.retryable == error.retryable,
        error.details matches Some(details) ==> error@.details == Some(details@),
        error.details is None ==> error@.details is None,
{
}

} // verus!
