//! The payload of an indexed record: the entry serialized as a JSON
//! object, and the decoding the search path uses to read it back.

use vstd::prelude::*;
use vstd::string::StringExecFns;
use crate::command::{Placeholder, PlaceholderView, SubCommand, SubCommandView};
use crate::command::placeholders_view;
use crate::codec::{json_to_text, parse_json};
use crate::json::{
    json_member_views, json_view, json_views, lemma_json_member_views_index,
    lemma_json_views_index, ser_value, sp_json, Json, JsonView,
};
use crate::json::{json_wf, json_wf_elems, json_wf_members};
use crate::manifest::{
    entry_of_json, obj_lookup, placeholder_of_json, placeholders_of_json, read_entry,
    ManifestError,
};
use crate::roundtrip::lemma_json_round;

verus! {

/// The JSON object that carries a placeholder.
pub open spec fn placeholder_json(p: PlaceholderView) -> JsonView {
    JsonView::Obj(
        seq![("name"@, JsonView::Str(p.name)), ("description"@, JsonView::Str(p.description))],
    )
}

/// The JSON array elements that carry a placeholder sequence.
pub open spec fn placeholders_json(ps: Seq<PlaceholderView>) -> Seq<JsonView> {
    ps.map_values(|p: PlaceholderView| placeholder_json(p))
}

/// The JSON object that carries an entry.
pub open spec fn entry_json(e: SubCommandView) -> JsonView {
    JsonView::Obj(
        seq![
            ("command"@, JsonView::Str(e.command)),
            ("description"@, JsonView::Str(e.description)),
            (
                "placeholders"@,
                match e.placeholders {
                    Some(ps) => JsonView::Arr(placeholders_json(ps)),
                    None => JsonView::Null,
                },
            ),
        ],
    )
}

/// The payload text stored with an entry's record.
pub open spec fn payload_of(e: SubCommandView) -> Seq<char> {
    ser_value(entry_json(e))
}

/// The entry a payload text carries, or why it carries none.
pub open spec fn entry_of_text(s: Seq<char>) -> Result<SubCommandView, ManifestError> {
    match sp_json(s) {
        Some(j) => entry_of_json(j),
        None => Err(ManifestError::InvalidJson),
    }
}

fn placeholder_to_json(p: &Placeholder) -> (r: Json)
    ensures
        r@ == placeholder_json(p@),
{
    let mut ms: Vec<(String, Json)> = Vec::new();
    ms.push((String::from_str("name"), Json::Str(p.name.clone())));
    ms.push((String::from_str("description"), Json::Str(p.description.clone())));
    proof {
        lemma_json_member_views_index(ms@);
        assert(json_member_views(ms@)[0] == (ms@[0].0@, json_view(ms@[0].1)));
        assert(json_member_views(ms@)[1] == (ms@[1].0@, json_view(ms@[1].1)));
        assert(json_member_views(ms@) =~= seq![
            ("name"@, JsonView::Str(p.name@)),
            ("description"@, JsonView::Str(p.description@)),
        ]);
    }
    Json::Obj(ms)
}

/// The JSON object that carries an entry.
pub fn entry_to_json(e: &SubCommand) -> (r: Json)
    ensures
        r@ == entry_json(e@),
{
    let mut ms: Vec<(String, Json)> = Vec::new();
    ms.push((String::from_str("command"), Json::Str(e.command.clone())));
    ms.push((String::from_str("description"), Json::Str(e.description.clone())));
    let ph: Json = match &e.placeholders {
        Some(ps) => {
            let mut arr: Vec<Json> = Vec::new();
            let mut i: usize = 0;
            while i < ps.len()
                invariant
                    i <= ps.len(),
                    arr@.len() == i,
                    forall|k: int| 0 <= k < i ==> json_view(#[trigger] arr@[k]) == placeholder_json(
                        ps@[k]@,
                    ),
                decreases ps.len() - i,
            {
                arr.push(placeholder_to_json(&ps[i]));
                i = i + 1;
            }
            proof {
                lemma_json_views_index(arr@);
                assert forall|k: int| 0 <= k < arr@.len() implies json_views(arr@)[k]
                    == placeholders_json(placeholders_view(ps@))[k] by {
                    assert(json_views(arr@)[k] == json_view(arr@[k]));
                    assert(placeholders_view(ps@)[k] == ps@[k]@);
                }
                assert(json_views(arr@) =~= placeholders_json(placeholders_view(ps@)));
            }
            Json::Arr(arr)
        },
        None => Json::Null,
    };
    let ghost phv = ph@;
    proof {
        assert(phv == match e@.placeholders {
            Some(ps) => JsonView::Arr(placeholders_json(ps)),
            None => JsonView::Null,
        });
    }
    ms.push((String::from_str("placeholders"), ph));
    proof {
        lemma_json_member_views_index(ms@);
        assert(json_member_views(ms@)[0] == (ms@[0].0@, json_view(ms@[0].1)));
        assert(json_member_views(ms@)[1] == (ms@[1].0@, json_view(ms@[1].1)));
        assert(json_member_views(ms@)[2] == (ms@[2].0@, json_view(ms@[2].1)));
        assert(json_view(ms@[2].1) == phv);
        assert(json_member_views(ms@) =~= seq![
            ("command"@, JsonView::Str(e.command@)),
            ("description"@, JsonView::Str(e.description@)),
            ("placeholders"@, phv),
        ]);
    }
    let r = Json::Obj(ms);
    proof {
        let target = entry_json(e@);
        assert(r@ == JsonView::Obj(json_member_views(ms@)));
        assert(target->Obj_0 =~= json_member_views(ms@));
        assert(r@ == entry_json(e@));
    }
    r
}

/// The payload stored with an entry's record: its JSON object, printed.
pub fn entry_payload(e: &SubCommand) -> (r: String)
    ensures
        r@ == payload_of(e@),
{
    let j = entry_to_json(e);
    json_to_text(&j)
}

/// Reads an entry back out of a stored payload text.
pub fn decode_payload(text: &str) -> (r: Result<SubCommand, ManifestError>)
    ensures
        match r {
            Ok(e) => entry_of_text(text@) == Ok::<SubCommandView, ManifestError>(e@),
            Err(er) => entry_of_text(text@) == Err::<SubCommandView, ManifestError>(er),
        },
{
    match parse_json(text) {
        Some(j) => read_entry(&j),
        None => Err(ManifestError::InvalidJson),
    }
}

proof fn lemma_placeholder_json_decodes(p: PlaceholderView)
    ensures
        placeholder_of_json(placeholder_json(p)) == Some(p),
        json_wf(placeholder_json(p)),
{
    reveal_strlit("name");
    reveal_strlit("description");
    let pms = seq![("name"@, JsonView::Str(p.name)), ("description"@, JsonView::Str(p.description))];
    assert(placeholder_json(p) == JsonView::Obj(pms));
    assert(obj_lookup(pms, "name"@) == Some(JsonView::Str(p.name)));
    assert("name"@.len() == 4);
    assert("description"@.len() == 11);
    assert("name"@ != "description"@);
    let t1 = pms.drop_first();
    assert(t1 =~= seq![("description"@, JsonView::Str(p.description))]);
    assert(obj_lookup(pms, "description"@) == obj_lookup(t1, "description"@));
    assert(obj_lookup(t1, "description"@) == Some(JsonView::Str(p.description)));
    assert(obj_lookup(pms, "description"@) == Some(JsonView::Str(p.description)));
    assert(PlaceholderView { name: p.name, description: p.description } == p);
    assert forall|m: int| 0 <= m < pms.len() implies json_wf(#[trigger] pms[m].1) by {}
    assert(json_wf_members(pms));
}

proof fn lemma_placeholders_json_decode(ps: Seq<PlaceholderView>)
    ensures
        placeholders_of_json(placeholders_json(ps)) == Some(ps),
        json_wf_elems(placeholders_json(ps)),
    decreases ps.len(),
{
    let es = placeholders_json(ps);
    if ps.len() == 0 {
        assert(es.len() == 0);
        assert(ps =~= Seq::<PlaceholderView>::empty());
        assert(placeholders_of_json(es) == Some(Seq::<PlaceholderView>::empty()));
    } else {
        assert(es[0] == placeholder_json(ps[0]));
        lemma_placeholder_json_decodes(ps[0]);
        assert(es.drop_first() =~= placeholders_json(ps.drop_first()));
        lemma_placeholders_json_decode(ps.drop_first());
        assert(seq![ps[0]] + ps.drop_first() =~= ps);
        assert forall|k: int| 0 <= k < es.len() implies json_wf(#[trigger] es[k]) by {
            if k == 0 {
            } else {
                assert(es[k] == placeholders_json(ps.drop_first())[k - 1]);
                assert(json_wf_elems(placeholders_json(ps.drop_first())));
            }
        }
    }
}

proof fn lemma_entry_json_wf(e: SubCommandView)
    ensures
        json_wf(entry_json(e)),
{
    let ms = entry_json_members(e);
    assert(entry_json(e) == JsonView::Obj(ms));
    assert forall|i: int| 0 <= i < ms.len() implies json_wf(#[trigger] ms[i].1) by {
        if i == 2 {
            match e.placeholders {
                Some(ps) => {
                    lemma_placeholders_json_decode(ps);
                },
                None => {},
            }
        }
    }
    assert(json_wf_members(ms));
}

/// The members of an entry's JSON object.
spec fn entry_json_members(e: SubCommandView) -> Seq<(Seq<char>, JsonView)> {
    seq![
        ("command"@, JsonView::Str(e.command)),
        ("description"@, JsonView::Str(e.description)),
        (
            "placeholders"@,
            match e.placeholders {
                Some(ps) => JsonView::Arr(placeholders_json(ps)),
                None => JsonView::Null,
            },
        ),
    ]
}

proof fn lemma_entry_json_decodes(e: SubCommandView)
    ensures
        entry_of_json(entry_json(e)) == Ok::<SubCommandView, ManifestError>(e),
{
    reveal_strlit("command");
    reveal_strlit("description");
    reveal_strlit("placeholders");
    let ms = entry_json_members(e);
    assert(entry_json(e) == JsonView::Obj(ms));
    assert("command"@.len() == 7);
    assert("description"@.len() == 11);
    assert("placeholders"@.len() == 12);
    assert(ms[0].0 == "command"@);
    assert(obj_lookup(ms, "command"@) == Some(JsonView::Str(e.command)));
    let tail1 = ms.drop_first();
    assert(tail1 =~= seq![ms[1], ms[2]]);
    assert("command"@ != "description"@);
    assert(obj_lookup(ms, "description"@) == obj_lookup(tail1, "description"@));
    assert(obj_lookup(tail1, "description"@) == Some(JsonView::Str(e.description)));
    let tail2 = tail1.drop_first();
    assert(tail2 =~= seq![ms[2]]);
    assert("command"@ != "placeholders"@);
    assert("description"@ != "placeholders"@);
    assert(obj_lookup(ms, "placeholders"@) == obj_lookup(tail1, "placeholders"@));
    assert(obj_lookup(tail1, "placeholders"@) == obj_lookup(tail2, "placeholders"@));
    assert(obj_lookup(tail2, "placeholders"@) == Some(ms[2].1));
    match e.placeholders {
        Some(ps) => {
            lemma_placeholders_json_decode(ps);
            assert(entry_of_json(entry_json(e)) == Ok::<SubCommandView, ManifestError>(
                SubCommandView {
                    command: e.command,
                    description: e.description,
                    placeholders: Some(ps),
                },
            ));
            assert(SubCommandView {
                command: e.command,
                description: e.description,
                placeholders: Some(ps),
            } == e);
        },
        None => {
            assert(ms[2].1 == JsonView::Null);
            assert(SubCommandView {
                command: e.command,
                description: e.description,
                placeholders: None,
            } == e);
        },
    }
}

/// Round trip: an entry serialized to its payload and decoded back by the
/// search path yields a value-equal entry — for every entry, whatever its
/// texts hold.
pub proof fn lemma_payload_round_trip(e: SubCommandView)
    ensures
        entry_of_text(payload_of(e)) == Ok::<SubCommandView, ManifestError>(e),
{
    lemma_entry_json_wf(e);
    lemma_json_round(entry_json(e));
    lemma_entry_json_decodes(e);
}

} // verus!
