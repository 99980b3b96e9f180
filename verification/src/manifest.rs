//! The registry snapshot model: reading a `Command` manifest out of a JSON
//! document, and the standalone validation entry point that reports why a
//! document is not a manifest.
//!
//! A manifest is an object with a `"name"` string and a `"commands"` array;
//! each element is an object with `"command"` and `"description"` strings
//! and an optional `"placeholders"` array (absent or `null` both mean no
//! placeholders).  Unknown members are ignored.

use vstd::prelude::*;
use vstd::string::StringExecFns;
use crate::command::{Command, CommandView, Placeholder, PlaceholderView, SubCommand, SubCommandView};
use crate::command::{entries_view, placeholders_view};
use crate::codec::parse_json;
use crate::json::{json_member_views, json_views, sp_json, Json, JsonView};

verus! {

/// Why a document was rejected as a manifest.
#[derive(Debug, Clone, Copy, PartialEq, Eq, Structural)]
pub enum ManifestError {
    /// The text is not a JSON document.
    InvalidJson,
    /// The document is not an object.
    NotAnObject,
    /// The object has no `"name"` string.
    InvalidName,
    /// The object has no `"commands"` array.
    InvalidCommands,
    /// An element of `"commands"` is not an entry object.
    InvalidEntry,
    /// An entry's `"placeholders"` member is not a placeholder array.
    InvalidPlaceholders,
}

impl ManifestError {
    /// A human-readable reason for the rejection.
    pub fn message(&self) -> (r: String)
        ensures
            *self == ManifestError::InvalidJson ==> r@ == "not a valid JSON document"@,
            *self == ManifestError::NotAnObject ==> r@ == "the document is not an object"@,
            *self == ManifestError::InvalidName ==> r@ == "the \"name\" member is missing or not a string"@,
            *self == ManifestError::InvalidCommands ==> r@
                == "the \"commands\" member is missing or not an array"@,
            *self == ManifestError::InvalidEntry ==> r@
                == "an entry lacks a \"command\" or \"description\" string"@,
            *self == ManifestError::InvalidPlaceholders ==> r@
                == "an entry's \"placeholders\" member is not a placeholder array"@,
    {
        match self {
            ManifestError::InvalidJson => String::from_str("not a valid JSON document"),
            ManifestError::NotAnObject => String::from_str("the document is not an object"),
            ManifestError::InvalidName => String::from_str(
                "the \"name\" member is missing or not a string",
            ),
            ManifestError::InvalidCommands => String::from_str(
                "the \"commands\" member is missing or not an array",
            ),
            ManifestError::InvalidEntry => String::from_str(
                "an entry lacks a \"command\" or \"description\" string",
            ),
            ManifestError::InvalidPlaceholders => String::from_str(
                "an entry's \"placeholders\" member is not a placeholder array",
            ),
        }
    }
}

// ---------------------------------------------------------------------------
// What the schema means, over JSON values.
// ---------------------------------------------------------------------------

/// The value of the first member with the given key, if any.
pub open spec fn obj_lookup(ms: Seq<(Seq<char>, JsonView)>, key: Seq<char>) -> Option<JsonView>
    decreases ms.len(),
{
    if ms.len() == 0 {
        None
    } else if ms[0].0 == key {
        Some(ms[0].1)
    } else {
        obj_lookup(ms.drop_first(), key)
    }
}

/// The placeholder a JSON value describes, if any.
pub open spec fn placeholder_of_json(j: JsonView) -> Option<PlaceholderView> {
    match j {
        JsonView::Obj(ms) => match (obj_lookup(ms, "name"@), obj_lookup(ms, "description"@)) {
            (Some(JsonView::Str(n)), Some(JsonView::Str(d))) => Some(
                PlaceholderView { name: n, description: d },
            ),
            _ => None,
        },
        _ => None,
    }
}

/// The placeholders a JSON array describes, if every element is one.
pub open spec fn placeholders_of_json(es: Seq<JsonView>) -> Option<Seq<PlaceholderView>>
    decreases es.len(),
{
    if es.len() == 0 {
        Some(Seq::empty())
    } else {
        match (placeholder_of_json(es[0]), placeholders_of_json(es.drop_first())) {
            (Some(p), Some(ps)) => Some(seq![p] + ps),
            _ => None,
        }
    }
}

/// The entry a JSON value describes, or why it describes none.
pub open spec fn entry_of_json(j: JsonView) -> Result<SubCommandView, ManifestError> {
    match j {
        JsonView::Obj(ms) => match (obj_lookup(ms, "command"@), obj_lookup(ms, "description"@)) {
            (Some(JsonView::Str(c)), Some(JsonView::Str(d))) => match obj_lookup(
                ms,
                "placeholders"@,
            ) {
                None => Ok(SubCommandView { command: c, description: d, placeholders: None }),
                Some(JsonView::Null) => Ok(
                    SubCommandView { command: c, description: d, placeholders: None },
                ),
                Some(JsonView::Arr(es)) => match placeholders_of_json(es) {
                    Some(ps) => Ok(
                        SubCommandView { command: c, description: d, placeholders: Some(ps) },
                    ),
                    None => Err(ManifestError::InvalidPlaceholders),
                },
                Some(_) => Err(ManifestError::InvalidPlaceholders),
            },
            _ => Err(ManifestError::InvalidEntry),
        },
        _ => Err(ManifestError::InvalidEntry),
    }
}

/// The entries a JSON array describes, or the first reason one of its
/// elements describes none.
pub open spec fn entries_of_json(es: Seq<JsonView>) -> Result<Seq<SubCommandView>, ManifestError>
    decreases es.len(),
{
    if es.len() == 0 {
        Ok(Seq::empty())
    } else {
        match entry_of_json(es[0]) {
            Ok(e) => match entries_of_json(es.drop_first()) {
                Ok(rest) => Ok(seq![e] + rest),
                Err(err) => Err(err),
            },
            Err(err) => Err(err),
        }
    }
}

/// The manifest a JSON value describes, or why it describes none.
pub open spec fn manifest_of_json(j: JsonView) -> Result<CommandView, ManifestError> {
    match j {
        JsonView::Obj(ms) => match obj_lookup(ms, "name"@) {
            Some(JsonView::Str(n)) => match obj_lookup(ms, "commands"@) {
                Some(JsonView::Arr(es)) => match entries_of_json(es) {
                    Ok(cs) => Ok(CommandView { name: n, commands: cs }),
                    Err(e) => Err(e),
                },
                _ => Err(ManifestError::InvalidCommands),
            },
            _ => Err(ManifestError::InvalidName),
        },
        _ => Err(ManifestError::NotAnObject),
    }
}

/// The manifest a text describes, or why it describes none.
pub open spec fn manifest_of_text(s: Seq<char>) -> Result<CommandView, ManifestError> {
    match sp_json(s) {
        Some(j) => manifest_of_json(j),
        None => Err(ManifestError::InvalidJson),
    }
}

// ---------------------------------------------------------------------------
// Reading a manifest.
// ---------------------------------------------------------------------------

/// The first member with the given key, if any.
fn lookup_member<'a>(ms: &'a Vec<(String, Json)>, key: &String) -> (r: Option<&'a Json>)
    ensures
        match r {
            Some(v) => obj_lookup(json_member_views(ms@), key@) == Some(v@),
            None => obj_lookup(json_member_views(ms@), key@) is None,
        },
{
    proof {
        crate::json::lemma_json_member_views_index(ms@);
    }
    let ghost views = json_member_views(ms@);
    proof {
        assert(views.skip(0) =~= views);
    }
    let mut i: usize = 0;
    while i < ms.len()
        invariant
            i <= ms.len(),
            views == json_member_views(ms@),
            views.len() == ms.len(),
            forall|k: int| 0 <= k < ms.len() ==> views[k] == ((#[trigger] ms@[k]).0@,
                crate::json::json_view(ms@[k].1)),
            obj_lookup(views, key@) == obj_lookup(views.skip(i as int), key@),
        decreases ms.len() - i,
    {
        proof {
            assert(views.skip(i as int).len() > 0);
            assert(views.skip(i as int)[0] == views[i as int]);
        }
        if ms[i].0 == *key {
            return Some(&ms[i].1);
        }
        proof {
            assert(views.skip(i as int).drop_first() =~= views.skip(i as int + 1));
        }
        i = i + 1;
    }
    proof {
        assert(views.skip(ms.len() as int).len() == 0);
    }
    None
}

/// The placeholder a JSON value describes.
fn read_placeholder(j: &Json) -> (r: Option<Placeholder>)
    ensures
        match r {
            Some(p) => placeholder_of_json(j@) == Some(p@),
            None => placeholder_of_json(j@) is None,
        },
{
    match j {
        Json::Obj(ms) => {
            let name = lookup_member(ms, &String::from_str("name"));
            let description = lookup_member(ms, &String::from_str("description"));
            match (name, description) {
                (Some(Json::Str(n)), Some(Json::Str(d))) => Some(
                    Placeholder { name: n.clone(), description: d.clone() },
                ),
                _ => None,
            }
        },
        _ => None,
    }
}

/// The entry a JSON value describes.
#[verifier::loop_isolation(false)]
pub(crate) fn read_entry(j: &Json) -> (r: Result<SubCommand, ManifestError>)
    ensures
        match r {
            Ok(e) => entry_of_json(j@) == Ok::<SubCommandView, ManifestError>(e@),
            Err(er) => entry_of_json(j@) == Err::<SubCommandView, ManifestError>(er),
        },
{
    match j {
        Json::Obj(ms) => {
            let command = lookup_member(ms, &String::from_str("command"));
            let description = lookup_member(ms, &String::from_str("description"));
            match (command, description) {
                (Some(Json::Str(c)), Some(Json::Str(d))) => {
                    match lookup_member(ms, &String::from_str("placeholders")) {
                        None => Ok(
                            SubCommand {
                                command: c.clone(),
                                description: d.clone(),
                                placeholders: None,
                            },
                        ),
                        Some(Json::Null) => Ok(
                            SubCommand {
                                command: c.clone(),
                                description: d.clone(),
                                placeholders: None,
                            },
                        ),
                        Some(Json::Arr(es)) => {
                            let ghost evs = json_views(es@);
                            proof {
                                crate::json::lemma_json_views_index(es@);
                            }
                            let mut ps: Vec<Placeholder> = Vec::new();
                            let mut i: usize = 0;
                            proof {
                                assert(evs.skip(0) =~= evs);
                            }
                            while i < es.len()
                                invariant
                                    i <= es.len(),
                                    (match placeholders_of_json(evs.skip(i as int)) {
                                        Some(rest) => placeholders_of_json(evs) == Some(
                                            placeholders_view(ps@) + rest,
                                        ),
                                        None => placeholders_of_json(evs) is None,
                                    }),
                                decreases es.len() - i,
                            {
                                proof {
                                    assert(evs.skip(i as int)[0] == evs[i as int]);
                                    assert(evs.skip(i as int).drop_first() =~= evs.skip(i + 1));
                                }
                                match read_placeholder(&es[i]) {
                                    Some(p) => {
                                        proof {
                                            assert(placeholders_view(ps@.push(p))
                                                =~= placeholders_view(ps@).push(p@));
                                            let rest = placeholders_of_json(evs.skip(i + 1));
                                            if rest is Some {
                                                assert(placeholders_view(ps@) + (seq![p@]
                                                    + rest.unwrap()) =~= placeholders_view(
                                                    ps@.push(p),
                                                ) + rest.unwrap());
                                            }
                                        }
                                        ps.push(p);
                                    },
                                    None => {
                                        return Err(ManifestError::InvalidPlaceholders);
                                    },
                                }
                                i = i + 1;
                            }
                            proof {
                                assert(evs.skip(es.len() as int).len() == 0);
                                assert(placeholders_view(ps@) + Seq::<PlaceholderView>::empty()
                                    =~= placeholders_view(ps@));
                            }
                            Ok(
                                SubCommand {
                                    command: c.clone(),
                                    description: d.clone(),
                                    placeholders: Some(ps),
                                },
                            )
                        },
                        Some(_) => Err(ManifestError::InvalidPlaceholders),
                    }
                },
                _ => Err(ManifestError::InvalidEntry),
            }
        },
        _ => Err(ManifestError::InvalidEntry),
    }
}

/// The manifest a JSON value describes.
#[verifier::loop_isolation(false)]
fn read_manifest(j: &Json) -> (r: Result<Command, ManifestError>)
    ensures
        match r {
            Ok(m) => manifest_of_json(j@) == Ok::<CommandView, ManifestError>(m@),
            Err(e) => manifest_of_json(j@) == Err::<CommandView, ManifestError>(e),
        },
{
    match j {
        Json::Obj(ms) => {
            let name = lookup_member(ms, &String::from_str("name"));
            match name {
                Some(Json::Str(n)) => {
                    match lookup_member(ms, &String::from_str("commands")) {
                        Some(Json::Arr(es)) => {
                            let ghost evs = json_views(es@);
                            proof {
                                crate::json::lemma_json_views_index(es@);
                                assert(evs.skip(0) =~= evs);
                            }
                            let mut cs: Vec<SubCommand> = Vec::new();
                            let mut i: usize = 0;
                            while i < es.len()
                                invariant
                                    i <= es.len(),
                                    (match entries_of_json(evs.skip(i as int)) {
                                        Ok(rest) => entries_of_json(evs) == Ok::<
                                            Seq<SubCommandView>,
                                            ManifestError,
                                        >(entries_view(cs@) + rest),
                                        Err(e) => entries_of_json(evs) == Err::<
                                            Seq<SubCommandView>,
                                            ManifestError,
                                        >(e),
                                    }),
                                decreases es.len() - i,
                            {
                                proof {
                                    assert(evs.skip(i as int)[0] == evs[i as int]);
                                    assert(evs.skip(i as int).drop_first() =~= evs.skip(i + 1));
                                }
                                match read_entry(&es[i]) {
                                    Ok(e) => {
                                        proof {
                                            assert(entries_view(cs@.push(e)) =~= entries_view(
                                                cs@,
                                            ).push(e@));
                                            let rest = entries_of_json(evs.skip(i + 1));
                                            if rest is Ok {
                                                assert(entries_view(cs@) + (seq![e@]
                                                    + rest.unwrap()) =~= entries_view(cs@.push(e))
                                                    + rest.unwrap());
                                            }
                                        }
                                        cs.push(e);
                                    },
                                    Err(er) => {
                                        return Err(er);
                                    },
                                }
                                i = i + 1;
                            }
                            proof {
                                assert(evs.skip(es.len() as int).len() == 0);
                                assert(entries_view(cs@) + Seq::<SubCommandView>::empty()
                                    =~= entries_view(cs@));
                            }
                            Ok(Command { name: n.clone(), commands: cs })
                        },
                        _ => Err(ManifestError::InvalidCommands),
                    }
                },
                _ => Err(ManifestError::InvalidName),
            }
        },
        _ => Err(ManifestError::NotAnObject),
    }
}

/// Reads a manifest out of a JSON text, or says why the text holds none.
pub fn parse_manifest(text: &str) -> (r: Result<Command, ManifestError>)
    ensures
        match r {
            Ok(m) => manifest_of_text(text@) == Ok::<CommandView, ManifestError>(m@),
            Err(e) => manifest_of_text(text@) == Err::<CommandView, ManifestError>(e),
        },
{
    match parse_json(text) {
        Some(j) => read_manifest(&j),
        None => Err(ManifestError::InvalidJson),
    }
}

/// Checks a document against the manifest schema without keeping the
/// manifest: the self-check registry authors run before committing.
pub fn validate_manifest(text: &str) -> (r: Result<(), ManifestError>)
    ensures
        r is Ok <==> manifest_of_text(text@) is Ok,
        match r {
            Ok(_) => true,
            Err(e) => manifest_of_text(text@) == Err::<CommandView, ManifestError>(e),
        },
{
    match parse_manifest(text) {
        Ok(_) => Ok(()),
        Err(e) => Err(e),
    }
}

} // verus!
