//! Constants for a frontend, generated from the protocol registry of a daemon.
use vstd::prelude::*;

use crate::json::{models, Json, JsonModel};
use crate::text::{decimal, decimal_text, optional_text, push_text, text_models};

verus! {

/// A hexadecimal digit.
pub open spec fn hex_digit(n: nat) -> char {
    if n < 10 {
        ('0' as nat + n) as char
    } else {
        ('a' as nat + (n - 10)) as char
    }
}

/// How a character is written inside a JSON string.
pub open spec fn escaped(c: char) -> Seq<char> {
    if c == '"' || c == '\\' {
        seq!['\\', c]
    } else if c == '\n' {
        seq!['\\', 'n']
    } else if c == '\r' {
        seq!['\\', 'r']
    } else if c == '\t' {
        seq!['\\', 't']
    } else if c as nat == 8 {
        seq!['\\', 'b']
    } else if c as nat == 12 {
        seq!['\\', 'f']
    } else if (c as nat) < 32 {
        seq!['\\', 'u', '0', '0', hex_digit(c as nat / 16), hex_digit(c as nat % 16)]
    } else {
        seq![c]
    }
}

/// The characters of a text as they are written inside a JSON string.
pub open spec fn all_escaped(text: Seq<char>) -> Seq<char>
    decreases text.len(),
{
    if text.len() == 0 {
        Seq::empty()
    } else {
        all_escaped(text.drop_last()) + escaped(text.last())
    }
}

/// A text as a JSON string.
pub open spec fn quoted(text: Seq<char>) -> Seq<char> {
    seq!['"'] + all_escaped(text) + seq!['"']
}

/// `serde_json::to_string` writes a text as a JSON string: in quotes, with quotes,
/// backslashes and control characters escaped. It does not fail on a text.
#[verifier::external_body]
fn to_json_string(text: &str) -> (r: Option<String>)
    ensures
        optional_text(r) == Some(quoted(text@)),
{
    serde_json::to_string(text).ok()
}

/// A text as a JSON string.
pub fn quote(text: &str) -> (r: String)
    ensures
        r@ == quoted(text@),
{
    match to_json_string(text) {
        Some(json) => json,
        None => String::new(),
    }
}

/// A list in a registry.
#[derive(Debug, Clone, Copy, PartialEq, Eq, Structural)]
pub enum NameList {
    Methods,
    Streams,
}

impl NameList {
    /// The field of the registry, and the variable that is generated.
    pub open spec fn spec_field(self) -> Seq<char> {
        match self {
            NameList::Methods => "methods"@,
            NameList::Streams => "streams"@,
        }
    }

    /// The field of the registry, and the variable that is generated.
    pub fn field(self) -> (r: &'static str)
        ensures
            r@ == self.spec_field(),
    {
        match self {
            NameList::Methods => "methods",
            NameList::Streams => "streams",
        }
    }
}

/// What a registry lacks.
#[derive(Debug, Clone, Copy, PartialEq, Eq, Structural)]
pub enum RegistryError {
    Protocol,
    Version,
    Registry,
    List(NameList),
    Name(NameList),
}

impl RegistryError {
    /// What the error says.
    pub open spec fn text(&self) -> Seq<char> {
        match *self {
            RegistryError::Protocol => "protocol registry is missing protocol"@,
            RegistryError::Version => "protocol registry is missing version"@,
            RegistryError::Registry => "protocol registry is missing registry data"@,
            RegistryError::List(list) => "protocol registry is missing "@ + list.spec_field(),
            RegistryError::Name(list) => "protocol "@ + list.spec_field()
                + " entry is missing name"@,
        }
    }

    /// What the error says.
    pub fn message(&self) -> (r: String)
        ensures
            r@ == self.text(),
    {
        match *self {
            RegistryError::Protocol => "protocol registry is missing protocol".to_owned(),
            RegistryError::Version => "protocol registry is missing version".to_owned(),
            RegistryError::Registry => "protocol registry is missing registry data".to_owned(),
            RegistryError::List(list) => {
                let mut r = "protocol registry is missing ".to_owned();
                push_text(&mut r, list.field());
                r
            },
            RegistryError::Name(list) => {
                let mut r = "protocol ".to_owned();
                push_text(&mut r, list.field());
                push_text(&mut r, " entry is missing name");
                r
            },
        }
    }
}

/// The names of the entries of a list, if each has one.
pub open spec fn entry_names(entries: Seq<JsonModel>) -> Option<Seq<Seq<char>>>
    decreases entries.len(),
{
    if entries.len() == 0 {
        Some(Seq::empty())
    } else {
        match (entry_names(entries.drop_last()), entries.last().field_text("name"@)) {
            (Some(names), Some(name)) => Some(names.push(name)),
            _ => None,
        }
    }
}

/// The names in a list of a registry.
pub open spec fn registry_names(registry: JsonModel, list: NameList) -> Result<
    Seq<Seq<char>>,
    RegistryError,
> {
    match registry.field(list.spec_field()) {
        Some(value) => match value.items() {
            Some(entries) => match entry_names(entries) {
                Some(names) => Ok(names),
                None => Err(RegistryError::Name(list)),
            },
            None => Err(RegistryError::List(list)),
        },
        None => Err(RegistryError::List(list)),
    }
}

proof fn lemma_nameless_entry(entries: Seq<JsonModel>, i: int)
    requires
        0 <= i < entries.len(),
        entries[i].field_text("name"@) is None,
    ensures
        entry_names(entries) is None,
    decreases entries.len(),
{
    if i < entries.len() - 1 {
        lemma_nameless_entry(entries.drop_last(), i);
    }
}

/// The names in a list of a registry.
pub fn names(registry: &Json, list: NameList) -> (r: Result<Vec<String>, RegistryError>)
    ensures
        match r {
            Ok(names) => registry_names(registry@, list) == Ok::<_, RegistryError>(
                text_models(names@),
            ),
            Err(error) => registry_names(registry@, list) == Err::<Seq<Seq<char>>, _>(error),
        },
{
    let value = match registry.get(list.field()) {
        Some(value) => value,
        None => return Err(RegistryError::List(list)),
    };
    let entries = match value.as_items() {
        Some(entries) => entries,
        None => return Err(RegistryError::List(list)),
    };
    let ghost all = models(entries@);
    let mut names: Vec<String> = Vec::new();
    let mut i: usize = 0;
    assert(text_models(names@) =~= Seq::empty());
    while i < entries.len()
        invariant
            i <= entries.len(),
            all == models(entries@),
            registry@.field(list.spec_field()) == Some(value@),
            value@.items() == Some(all),
            entry_names(all.take(i as int)) == Some(text_models(names@)),
        decreases entries.len() - i,
    {
        proof {
            assert(all[i as int] == entries@[i as int]@);
            assert(all.take(i + 1).drop_last() =~= all.take(i as int));
            assert(all.take(i + 1).last() == all[i as int]);
        }
        match entries[i].get_text("name") {
            Some(name) => {
                let ghost before = text_models(names@);
                names.push(name.to_owned());
                assert(text_models(names@) =~= before.push(name@));
            },
            None => {
                proof {
                    lemma_nameless_entry(all, i as int);
                }
                return Err(RegistryError::Name(list));
            },
        }
        i += 1;
    }
    assert(all.take(i as int) =~= all);
    Ok(names)
}

/// The line of one name.
pub open spec fn name_line(name: Seq<char>) -> Seq<char> {
    "    "@ + quoted(name) + ": "@ + quoted(name) + ",\n"@
}

/// The lines of names.
pub open spec fn name_lines(names: Seq<Seq<char>>) -> Seq<char>
    decreases names.len(),
{
    if names.len() == 0 {
        Seq::empty()
    } else {
        name_lines(names.drop_last()) + name_line(names.last())
    }
}

/// The variable that holds names.
pub open spec fn names_variable(variable: Seq<char>, names: Seq<Seq<char>>) -> Seq<char> {
    "var "@ + variable + " = ({\n"@ + name_lines(names) + "});\n"@
}

/// Writes the variable that holds names.
pub fn render_names(variable: &str, names: &Vec<String>) -> (r: String)
    ensures
        r@ == names_variable(variable@, text_models(names@)),
{
    let mut r = "var ".to_owned();
    push_text(&mut r, variable);
    push_text(&mut r, " = ({\n");
    let ghost head = r@;
    let ghost all = text_models(names@);
    let mut i: usize = 0;
    assert(head =~= head + name_lines(all.take(0)));
    while i < names.len()
        invariant
            i <= names.len(),
            all == text_models(names@),
            r@ == head + name_lines(all.take(i as int)),
        decreases names.len() - i,
    {
        proof {
            assert(all[i as int] == names@[i as int]@);
            assert(all.take(i + 1).drop_last() =~= all.take(i as int));
            assert(all.take(i + 1).last() == all[i as int]);
        }
        let ghost before = r@;
        let encoded = quote(names[i].as_str());
        push_text(&mut r, "    ");
        push_text(&mut r, encoded.as_str());
        push_text(&mut r, ": ");
        push_text(&mut r, encoded.as_str());
        push_text(&mut r, ",\n");
        assert(r@ =~= before + name_line(all[i as int]));
        assert(r@ =~= head + (name_lines(all.take(i as int)) + name_line(all[i as int])));
        i += 1;
    }
    assert(all.take(i as int) =~= all);
    push_text(&mut r, "});\n");
    r
}

/// Where the registry data stand: in a registry itself, or in the answer of a daemon.
pub open spec fn registry_data(value: JsonModel) -> Option<JsonModel> {
    match value.field("registry"@) {
        Some(registry) => Some(registry),
        None => match value.field("data"@) {
            Some(data) => data.field("protocol"@),
            None => None,
        },
    }
}

/// The generated source.
pub open spec fn source_text(
    protocol: Seq<char>,
    version: u64,
    methods: Seq<Seq<char>>,
    streams: Seq<Seq<char>>,
) -> Seq<char> {
    ".pragma library\n\n// Generated from the daemon-owned protocol registry. Do not edit.\n"@
        + "var protocol = "@ + quoted(protocol) + ";\n"@ + "var version = "@ + decimal(
        version as nat,
    ) + ";\n"@ + names_variable("methods"@, methods) + names_variable("streams"@, streams)
}

/// The source that is generated from a registry, or what the registry lacks first.
pub open spec fn rendered(value: JsonModel) -> Result<Seq<char>, RegistryError> {
    match value.field_text("protocol"@) {
        None => Err(RegistryError::Protocol),
        Some(protocol) => match value.field("version"@) {
            None => Err(RegistryError::Version),
            Some(version) => match version.unsigned() {
                None => Err(RegistryError::Version),
                Some(version) => match registry_data(value) {
                    None => Err(RegistryError::Registry),
                    Some(registry) => match registry_names(registry, NameList::Methods) {
                        Err(error) => Err(error),
                        Ok(methods) => match registry_names(registry, NameList::Streams) {
                            Err(error) => Err(error),
                            Ok(streams) => Ok(source_text(protocol, version, methods, streams)),
                        },
                    },
                },
            },
        },
    }
}

/// Generates the source from a registry.
pub fn render(value: &Json) -> (r: Result<String, RegistryError>)
    ensures
        match r {
            Ok(source) => rendered(value@) == Ok::<_, RegistryError>(source@),
            Err(error) => rendered(value@) == Err::<Seq<char>, _>(error),
        },
{
    let protocol = match value.get_text("protocol") {
        Some(protocol) => protocol,
        None => return Err(RegistryError::Protocol),
    };
    let version: u64 = match value.get("version") {
        Some(version) => match version.as_unsigned() {
            Some(version) => version,
            None => return Err(RegistryError::Version),
        },
        None => return Err(RegistryError::Version),
    };
    let registry = match value.get("registry") {
        Some(registry) => registry,
        None => match value.get("data") {
            Some(data) => match data.get("protocol") {
                Some(registry) => registry,
                None => return Err(RegistryError::Registry),
            },
            None => return Err(RegistryError::Registry),
        },
    };
    let methods = match names(registry, NameList::Methods) {
        Ok(methods) => methods,
        Err(error) => return Err(error),
    };
    let streams = match names(registry, NameList::Streams) {
        Ok(streams) => streams,
        Err(error) => return Err(error),
    };
    let mut r =
        ".pragma library\n\n// Generated from the daemon-owned protocol registry. Do not edit.\n".to_owned();
    push_text(&mut r, "var protocol = ");
    push_text(&mut r, quote(protocol).as_str());
    push_text(&mut r, ";\n");
    push_text(&mut r, "var version = ");
    push_text(&mut r, decimal_text(version).as_str());
    push_text(&mut r, ";\n");
    push_text(&mut r, render_names("methods", &methods).as_str());
    push_text(&mut r, render_names("streams", &streams).as_str());
    Ok(r)
}

/// A registry renders to the same source directly and inside the answer of a daemon.
pub proof fn direct_and_enveloped_registries_render_alike(direct: JsonModel, enveloped: JsonModel)
    requires
        enveloped.field("registry"@) is None,
        direct.field("registry"@) is Some,
        enveloped.field("protocol"@) == direct.field("protocol"@),
        enveloped.field("version"@) == direct.field("version"@),
        enveloped.field("data"@) matches Some(data) && data.field("protocol"@) == direct.field(
            "registry"@,
        ),
    ensures
        rendered(enveloped) == rendered(direct),
{
}

/// The names of a list are those of its entries, in their order; it has none where an
/// entry lacks its name.
pub proof fn entries_are_named_in_order(entries: Seq<JsonModel>, i: int)
    ensures
        match entry_names(entries) {
            Some(names) => names.len() == entries.len() && (0 <= i < entries.len()
                ==> entries[i].field_text("name"@) == Some(names[i])),
            None => exists|k: int|
                0 <= k < entries.len() && (#[trigger] entries[k]).field_text("name"@) is None,
        },
        0 <= i < entries.len() && entries[i].field_text("name"@) is None ==> entry_names(entries)
            is None,
    decreases entries.len(),
{
    if 0 <= i < entries.len() && entries[i].field_text("name"@) is None {
        lemma_nameless_entry(entries, i);
    }
    if entries.len() > 0 {
        let init = entries.drop_last();
        let last = entries.len() - 1;
        entries_are_named_in_order(init, i);
        if entry_names(entries) is None {
            if entry_names(init) is None {
                let k = choose|k: int|
                    0 <= k < init.len() && (#[trigger] init[k]).field_text("name"@) is None;
                assert(entries[k].field_text("name"@) is None);
            } else {
                assert(entries[last].field_text("name"@) is None);
            }
        } else if 0 <= i < last {
            assert(init[i] == entries[i]);
        }
    }
}

/// The methods and the streams of a registry stand in lists of those names; without the
/// list, or a name in it, the registry is refused for that list.
pub proof fn registries_list_methods_and_streams(
    registry: JsonModel,
    list: NameList,
    entries: Seq<JsonModel>,
)
    ensures
        ({
            let value = registry.field(
                match list {
                    NameList::Methods => "methods"@,
                    NameList::Streams => "streams"@,
                },
            );
            &&& value == Some(JsonModel::Array(entries)) ==> registry_names(registry, list)
                == match entry_names(entries) {
                Some(names) => Ok(names),
                None => Err(RegistryError::Name(list)),
            }
            &&& value is None || !(value->0 is Array) ==> registry_names(registry, list) == Err::<
                Seq<Seq<char>>,
                _,
            >(RegistryError::List(list))
        }),
{
}

/// Names are written line by line, in their order, each under itself.
pub proof fn names_are_written_line_by_line(
    before: Seq<Seq<char>>,
    name: Seq<char>,
    after: Seq<Seq<char>>,
)
    ensures
        name_lines(before + seq![name] + after) == name_lines(before) + ("    "@ + quoted(name)
            + ": "@ + quoted(name) + ",\n"@) + name_lines(after),
        name_lines(Seq::empty()) == Seq::<char>::empty(),
    decreases after.len(),
{
    let all = before + seq![name] + after;
    if after.len() == 0 {
        assert(all.drop_last() =~= before);
        assert(name_lines(before) + name_line(name) + name_lines(after) =~= name_lines(before)
            + name_line(name));
    } else {
        names_are_written_line_by_line(before, name, after.drop_last());
        assert(all.drop_last() =~= before + seq![name] + after.drop_last());
        assert(all.last() == after.last());
        let (a, b, c, d) = (
            name_lines(before),
            name_line(name),
            name_lines(after.drop_last()),
            name_line(after.last()),
        );
        assert((a + b + c) + d =~= a + b + (c + d));
    }
}

/// A registry that lacks nothing is rendered with its protocol, its version, and the names
/// of its methods and of its streams, each under the variable of that name.
pub proof fn complete_registries_are_rendered(
    value: JsonModel,
    protocol: Seq<char>,
    version: u64,
    registry: JsonModel,
    methods: Seq<Seq<char>>,
    streams: Seq<Seq<char>>,
)
    requires
        value.field("protocol"@) == Some(JsonModel::Text(protocol)),
        value.field("version"@) == Some(
            JsonModel::Number(crate::json::JsonNumber::Unsigned(version)),
        ),
        value.field("registry"@) == Some(registry),
        registry_names(registry, NameList::Methods) == Ok::<_, RegistryError>(methods),
        registry_names(registry, NameList::Streams) == Ok::<_, RegistryError>(streams),
    ensures
        rendered(value) == Ok::<_, RegistryError>(
            ".pragma library\n\n// Generated from the daemon-owned protocol registry. Do not edit.\n"@
                + "var protocol = "@ + quoted(protocol) + ";\n"@ + "var version = "@ + decimal(
                version as nat,
            ) + ";\n"@ + ("var "@ + "methods"@ + " = ({\n"@ + name_lines(methods) + "});\n"@) + (
            "var "@ + "streams"@ + " = ({\n"@ + name_lines(streams) + "});\n"@),
        ),
{
}

/// A registry is refused for what it lacks first: its protocol, its version, its data, its
/// methods, and then its streams.
pub proof fn incomplete_registries_are_refused_in_order(value: JsonModel, registry: JsonModel)
    ensures
        value.field_text("protocol"@) is None <==> rendered(value) == Err::<Seq<char>, _>(
            RegistryError::Protocol,
        ),
        value.field_text("protocol"@) is Some && (value.field("version"@) is None || value.field(
            "version"@,
        )->0.unsigned() is None) <==> rendered(value) == Err::<Seq<char>, _>(
            RegistryError::Version,
        ),
        value.field_text("protocol"@) is Some && value.field("version"@) is Some && value.field(
            "version"@,
        )->0.unsigned() is Some ==> {
            &&& value.field("registry"@) is None && (value.field("data"@) is None || value.field(
                "data"@,
            )->0.field("protocol"@) is None) ==> rendered(value) == Err::<Seq<char>, _>(
                RegistryError::Registry,
            )
            &&& value.field("registry"@) == Some(registry) ==> {
                &&& registry_names(registry, NameList::Methods) matches Err(error) ==> rendered(
                    value,
                ) == Err::<Seq<char>, _>(error)
                &&& registry_names(registry, NameList::Methods) is Ok ==> (registry_names(
                    registry,
                    NameList::Streams,
                ) matches Err(error) ==> rendered(value) == Err::<Seq<char>, _>(error))
                &&& registry_names(registry, NameList::Methods) is Ok && registry_names(
                    registry,
                    NameList::Streams,
                ) is Ok ==> rendered(value) is Ok
            }
        },
{
}

/// The errors say what a registry lacks, and in which list.
pub proof fn registry_errors_are_told(list: NameList)
    ensures
        RegistryError::Protocol.text() == "protocol registry is missing protocol"@,
        RegistryError::Version.text() == "protocol registry is missing version"@,
        RegistryError::Registry.text() == "protocol registry is missing registry data"@,
        RegistryError::List(NameList::Methods).text() == "protocol registry is missing "@
            + "methods"@,
        RegistryError::List(NameList::Streams).text() == "protocol registry is missing "@
            + "streams"@,
        RegistryError::Name(NameList::Methods).text() == "protocol "@ + "methods"@
            + " entry is missing name"@,
        RegistryError::Name(NameList::Streams).text() == "protocol "@ + "streams"@
            + " entry is missing name"@,
        list.spec_field() == "methods"@ || list.spec_field() == "streams"@,
{
}

} // verus!
