use vstd::prelude::*;
use vstd::string::*;
use crate::json::{Json, JsonV, json_of_bytes, pretty_json, plain_json, plain_within, decode_json, encode_json_pretty};

verus! {

/// One nested subcommand that a plugin declares.
#[derive(Clone, Debug, PartialEq, Eq)]
pub struct SubCmdMeta {
    pub name: String,
    pub description: String,
}

/// The declared identity and command surface of one plugin.
#[derive(Clone, Debug, PartialEq, Eq)]
pub struct Manifest {
    pub name: String,
    pub description: String,
    pub version: String,
    pub commands: Vec<SubCmdMeta>,
}

pub struct SubCmdMetaV {
    pub name: Seq<char>,
    pub description: Seq<char>,
}

pub struct ManifestV {
    pub name: Seq<char>,
    pub description: Seq<char>,
    pub version: Seq<char>,
    pub commands: Seq<SubCmdMetaV>,
}

impl View for SubCmdMeta {
    type V = SubCmdMetaV;

    open spec fn view(&self) -> SubCmdMetaV {
        SubCmdMetaV { name: self.name@, description: self.description@ }
    }
}

impl View for Manifest {
    type V = ManifestV;

    open spec fn view(&self) -> ManifestV {
        ManifestV {
            name: self.name@,
            description: self.description@,
            version: self.version@,
            commands: self.commands@.map_values(|c: SubCmdMeta| c@),
        }
    }
}

/// Why bytes were not accepted as a manifest.
#[derive(Clone, Copy, Debug, PartialEq, Eq, Structural)]
pub enum ParseError {
    /// The bytes are not a JSON document.
    Syntax,
    /// The document lacks a field, or a field has the wrong type.
    Shape,
    /// The plugin's name is the empty string.
    EmptyName,
}

pub open spec fn valid_manifest(m: ManifestV) -> bool {
    m.name.len() > 0
}

/// The value of the last member named `key`, as a JSON object reader keeps it.
pub open spec fn lookup(o: Seq<(Seq<char>, JsonV)>, key: Seq<char>) -> Option<JsonV>
    decreases o.len(),
{
    if o.len() == 0 {
        None
    } else if o.last().0 == key {
        Some(o.last().1)
    } else {
        lookup(o.drop_last(), key)
    }
}

pub open spec fn str_of(j: Option<JsonV>) -> Option<Seq<char>> {
    match j {
        Some(JsonV::Str(s)) => Some(s),
        _ => None,
    }
}

pub open spec fn sub_of_json(j: JsonV) -> Option<SubCmdMetaV> {
    match j {
        JsonV::Object(o) => match (str_of(lookup(o, "name"@)), str_of(lookup(o, "description"@))) {
            (Some(n), Some(d)) => Some(SubCmdMetaV { name: n, description: d }),
            _ => None,
        },
        _ => None,
    }
}

/// The `commands` member: absent means none; otherwise an array of subcommands.
pub open spec fn commands_of_json(j: Option<JsonV>) -> Option<Seq<SubCmdMetaV>> {
    match j {
        None => Some(Seq::empty()),
        Some(JsonV::Array(a)) => if forall|i: int| 0 <= i < a.len() ==> (#[trigger] sub_of_json(a[i])) is Some {
            Some(a.map_values(|x: JsonV| sub_of_json(x)->Some_0))
        } else {
            None
        },
        _ => None,
    }
}

/// The manifest a document describes, if it has the manifest's shape.
pub open spec fn manifest_of_json(j: JsonV) -> Option<ManifestV> {
    match j {
        JsonV::Object(o) => match (
            str_of(lookup(o, "name"@)),
            str_of(lookup(o, "description"@)),
            str_of(lookup(o, "version"@)),
            commands_of_json(lookup(o, "commands"@)),
        ) {
            (Some(n), Some(d), Some(v), Some(c)) => Some(
                ManifestV { name: n, description: d, version: v, commands: c },
            ),
            _ => None,
        },
        _ => None,
    }
}

/// What reading the bytes `b` as a manifest gives.
pub open spec fn manifest_of_bytes(b: Seq<u8>) -> Result<ManifestV, ParseError> {
    match json_of_bytes(b) {
        None => Err(ParseError::Syntax),
        Some(j) => match manifest_of_json(j) {
            None => Err(ParseError::Shape),
            Some(m) => if m.name.len() == 0 {
                Err(ParseError::EmptyName)
            } else {
                Ok(m)
            },
        },
    }
}

pub open spec fn json_of_sub(c: SubCmdMetaV) -> JsonV {
    JsonV::Object(seq![("name"@, JsonV::Str(c.name)), ("description"@, JsonV::Str(c.description))])
}

/// The document written for a manifest: its four fields, in declaration order.
pub open spec fn json_of_manifest(m: ManifestV) -> JsonV {
    JsonV::Object(
        seq![
            ("name"@, JsonV::Str(m.name)),
            ("description"@, JsonV::Str(m.description)),
            ("version"@, JsonV::Str(m.version)),
            ("commands"@, JsonV::Array(m.commands.map_values(|c: SubCmdMetaV| json_of_sub(c)))),
        ],
    )
}

/// The sidecar bytes written for a manifest.
pub open spec fn manifest_bytes(m: ManifestV) -> Seq<u8> {
    pretty_json(json_of_manifest(m))
}


/// Index of the last member of `o` named `key`.
fn find_member(o: &Vec<(String, Json)>, key: &String) -> (r: Option<usize>)
    ensures
        match r {
            Some(i) => i < o@.len() && lookup(Json::Object(*o)@->Object_0, key@) == Some(
                o@[i as int].1@,
            ),
            None => lookup(Json::Object(*o)@->Object_0, key@) is None,
        },
{
    let ghost ov = Json::Object(*o)@->Object_0;
    let mut found: Option<usize> = None;
    let mut i: usize = 0;
    while i < o.len()
        invariant
            i <= o@.len(),
            ov.len() == o@.len(),
            forall|k: int| 0 <= k < o@.len() ==> #[trigger] ov[k] == (o@[k].0@, o@[k].1@),
            match found {
                Some(f) => f < i && lookup(ov.take(i as int), key@) == Some(o@[f as int].1@),
                None => lookup(ov.take(i as int), key@) is None,
            },
        decreases o@.len() - i,
    {
        assert(ov.take(i + 1).drop_last() =~= ov.take(i as int));
        if o[i].0 == *key {
            found = Some(i);
        }
        i = i + 1;
    }
    assert(ov.take(i as int) =~= ov);
    found
}

/// The string held by the last member named `key`, if it is a string.
fn string_member(o: &Vec<(String, Json)>, key: &String) -> (r: Option<String>)
    ensures
        match r {
            Some(s) => str_of(lookup(Json::Object(*o)@->Object_0, key@)) == Some(s@),
            None => str_of(lookup(Json::Object(*o)@->Object_0, key@)) is None,
        },
{
    match find_member(o, key) {
        Some(i) => match &o[i].1 {
            Json::Str(s) => Some(s.clone()),
            _ => None,
        },
        None => None,
    }
}

fn sub_from_json(j: &Json) -> (r: Option<SubCmdMeta>)
    ensures
        match r {
            Some(c) => sub_of_json(j@) == Some(c@),
            None => sub_of_json(j@) is None,
        },
{
    match j {
        Json::Object(o) => {
            let kn = String::from_str("name");
            let kd = String::from_str("description");
            let n = string_member(o, &kn);
            let d = string_member(o, &kd);
            match (n, d) {
                (Some(n), Some(d)) => Some(SubCmdMeta { name: n, description: d }),
                _ => None,
            }
        },
        _ => None,
    }
}

fn commands_from_json(o: &Vec<(String, Json)>) -> (r: Option<Vec<SubCmdMeta>>)
    ensures
        match r {
            Some(c) => commands_of_json(lookup(Json::Object(*o)@->Object_0, "commands"@)) == Some(
                c@.map_values(|x: SubCmdMeta| x@),
            ),
            None => commands_of_json(lookup(Json::Object(*o)@->Object_0, "commands"@)) is None,
        },
{
    let kc = String::from_str("commands");
    match find_member(o, &kc) {
        None => Some(Vec::new()),
        Some(k) => match &o[k].1 {
            Json::Array(a) => {
                let ghost av = o@[k as int].1@->Array_0;
                assert(lookup(Json::Object(*o)@->Object_0, "commands"@) == Some(JsonV::Array(av)));
                let mut out: Vec<SubCmdMeta> = Vec::new();
                let mut i: usize = 0;
                while i < a.len()
                    invariant
                        lookup(Json::Object(*o)@->Object_0, "commands"@) == Some(JsonV::Array(av)),
                        i <= a@.len(),
                        av.len() == a@.len(),
                        forall|t: int| 0 <= t < a@.len() ==> #[trigger] av[t] == a@[t]@,
                        out@.len() == i,
                        forall|t: int| 0 <= t < i ==> #[trigger] sub_of_json(av[t]) == Some(out@[t]@),
                    decreases a@.len() - i,
                {
                    match sub_from_json(&a[i]) {
                        Some(c) => out.push(c),
                        None => {
                            assert(sub_of_json(av[i as int]) is None);
                            return None;
                        },
                    }
                    i = i + 1;
                }
                assert(out@.map_values(|x: SubCmdMeta| x@) =~= av.map_values(
                    |x: JsonV| sub_of_json(x)->Some_0,
                ));
                Some(out)
            },
            _ => None,
        },
    }
}

/// Reads a manifest out of a JSON document.
pub fn manifest_from_json(j: &Json) -> (r: Option<Manifest>)
    ensures
        match r {
            Some(m) => manifest_of_json(j@) == Some(m@),
            None => manifest_of_json(j@) is None,
        },
{
    match j {
        Json::Object(o) => {
            let kn = String::from_str("name");
            let kd = String::from_str("description");
            let kv = String::from_str("version");
            let n = string_member(o, &kn);
            let d = string_member(o, &kd);
            let v = string_member(o, &kv);
            let c = commands_from_json(o);
            match (n, d, v, c) {
                (Some(n), Some(d), Some(v), Some(c)) => Some(
                    Manifest { name: n, description: d, version: v, commands: c },
                ),
                _ => None,
            }
        },
        _ => None,
    }
}

/// Reads a manifest from the bytes of its JSON form. A missing `commands`
/// member means the plugin declares no subcommands.
pub fn parse(b: &[u8]) -> (r: Result<Manifest, ParseError>)
    ensures
        match r {
            Ok(m) => manifest_of_bytes(b@) == Ok::<ManifestV, ParseError>(m@),
            Err(e) => manifest_of_bytes(b@) == Err::<ManifestV, ParseError>(e),
        },
{
    match decode_json(b) {
        Err(_) => Err(ParseError::Syntax),
        Ok(j) => match manifest_from_json(&j) {
            None => Err(ParseError::Shape),
            Some(m) => if m.name.as_str().unicode_len() == 0 {
                Err(ParseError::EmptyName)
            } else {
                Ok(m)
            },
        },
    }
}

fn sub_to_json(c: &SubCmdMeta) -> (r: Json)
    ensures
        r@ == json_of_sub(c@),
{
    let mut o: Vec<(String, Json)> = Vec::new();
    o.push((String::from_str("name"), Json::Str(c.name.clone())));
    o.push((String::from_str("description"), Json::Str(c.description.clone())));
    let r = Json::Object(o);
    proof {
        reveal_with_fuel(Json::view, 2);
    }
    assert(r@->Object_0 =~= json_of_sub(c@)->Object_0);
    r
}

/// The JSON document that stands for a manifest.
pub fn manifest_to_json(m: &Manifest) -> (r: Json)
    ensures
        r@ == json_of_manifest(m@),
{
    let mut a: Vec<Json> = Vec::new();
    let mut i: usize = 0;
    while i < m.commands.len()
        invariant
            i <= m.commands@.len(),
            a@.len() == i,
            forall|t: int| 0 <= t < i ==> #[trigger] a@[t]@ == json_of_sub(m.commands@[t]@),
        decreases m.commands@.len() - i,
    {
        a.push(sub_to_json(&m.commands[i]));
        i = i + 1;
    }
    let ca = Json::Array(a);
    proof {
        reveal_with_fuel(Json::view, 2);
    }
    assert forall|t: int| 0 <= t < m.commands@.len() implies #[trigger] ca@->Array_0[t] == m@.commands.map_values(|c: SubCmdMetaV| json_of_sub(c))[t] by {
        assert(ca@->Array_0[t] == a@[t]@);
        assert(m@.commands[t] == m.commands@[t]@);
    }
    assert(ca@->Array_0 =~= m@.commands.map_values(|c: SubCmdMetaV| json_of_sub(c)));
    let mut o: Vec<(String, Json)> = Vec::new();
    o.push((String::from_str("name"), Json::Str(m.name.clone())));
    o.push((String::from_str("description"), Json::Str(m.description.clone())));
    o.push((String::from_str("version"), Json::Str(m.version.clone())));
    o.push((String::from_str("commands"), ca));
    let r = Json::Object(o);
    proof {
        reveal_with_fuel(Json::view, 2);
    }
    assert(r@->Object_0 =~= json_of_manifest(m@)->Object_0);
    r
}

/// The document written for a manifest reads back as that manifest, and
/// serde_json prints it back exactly.
pub proof fn lemma_manifest_json_round_trip(m: ManifestV)
    ensures
        manifest_of_json(json_of_manifest(m)) == Some(m),
        plain_json(json_of_manifest(m)),
{
    reveal_strlit("name");
    reveal_strlit("description");
    reveal_strlit("version");
    reveal_strlit("commands");
    reveal_with_fuel(lookup, 5);
    assert("name"@.len() == 4);
    assert("description"@.len() == 11);
    assert("version"@.len() == 7);
    assert("commands"@.len() == 8);
    let o = json_of_manifest(m)->Object_0;
    assert(o.drop_last().drop_last().drop_last() =~= seq![o[0]]);
    assert(o.drop_last().drop_last() =~= seq![o[0], o[1]]);
    assert(o.drop_last() =~= seq![o[0], o[1], o[2]]);
    assert(seq![o[0]].drop_last() =~= Seq::<(Seq<char>, JsonV)>::empty());
    let a = o[3].1->Array_0;
    assert forall|i: int| 0 <= i < a.len() implies #[trigger] sub_of_json(a[i]) == Some(m.commands[i]) by {
        reveal_strlit("name");
        reveal_strlit("description");
        let so = json_of_sub(m.commands[i])->Object_0;
        assert(so.drop_last() =~= seq![so[0]]);
        assert(seq![so[0]].drop_last() =~= Seq::<(Seq<char>, JsonV)>::empty());
        assert("name"@.len() == 4);
        assert("description"@.len() == 11);
        assert(so.last().0 != "name"@);
        assert(lookup(seq![so[0]], "name"@) == Some(so[0].1));
        assert(lookup(so, "name"@) == Some(so[0].1));
        assert(lookup(so, "description"@) == Some(so[1].1));
        assert(a[i] == json_of_sub(m.commands[i]));
    }
    assert(a.map_values(|x: JsonV| sub_of_json(x)->Some_0) =~= m.commands);
    assert forall|i: int| 0 <= i < a.len() implies plain_within(#[trigger] a[i], 62) by {
        reveal_strlit("name");
        reveal_strlit("description");
        let so = json_of_sub(m.commands[i])->Object_0;
        assert(so[0].0.len() != so[1].0.len());
        assert(plain_within(so[0].1, 61));
        assert(plain_within(so[1].1, 61));
    }
    assert(plain_within(o[3].1, 63));
    assert forall|i: int| 0 <= i < o.len() implies plain_within(#[trigger] o[i].1, 63) by {
        if i < 3 {
            assert(o[i].1 is Str);
        }
    }
}

/// The pretty-printed JSON form of a manifest, as written to its sidecar
/// file. Reading it back with `parse` gives the same manifest.
pub fn serialize(m: &Manifest) -> (r: Vec<u8>)
    ensures
        r@ == manifest_bytes(m@),
        valid_manifest(m@) ==> manifest_of_bytes(r@) == Ok::<ManifestV, ParseError>(m@),
{
    let j = manifest_to_json(m);
    let r = encode_json_pretty(&j);
    proof {
        lemma_manifest_json_round_trip(m@);
    }
    r
}

/// The line that shows one plugin in a listing:
/// `- <name> (v<version>) <description>`.
pub fn list_line(m: &Manifest) -> (r: String)
    ensures
        r@ == "- "@ + m.name@ + " (v"@ + m.version@ + ") "@ + m.description@,
{
    String::from_str("- ").concat(m.name.as_str()).concat(" (v").concat(m.version.as_str()).concat(
        ") ",
    ).concat(m.description.as_str())
}

} // verus!
