//! Relations between entities and the links between their documents.
use vstd::prelude::*;
use crate::error::{bad_request, bad_request_with, message_of, AppError};
use crate::json::{get_spec, member, str_of, Json};
use crate::text::string_views;
use crate::repository::insert_member;
use crate::text::{chars_of, push_str, str_eq, string_from, string_of};

verus! {

broadcast use vstd::string::group_string_axioms;

pub struct Relation {
    pub id: String,
    pub source_entity_id: String,
    pub source_field_id: Option<String>,
    pub target_entity_id: String,
    pub target_field_id: Option<String>,
    pub name: String,
    pub relation_type: String,
    pub on_delete: String,
    pub created_at: String,
}

pub struct RelationLink {
    pub relation_id: String,
    pub source_doc_id: String,
    pub target_doc_id: String,
}

pub open spec fn relation_type_known(t: Seq<char>) -> bool {
    t == "one_to_one"@ || t == "one_to_many"@ || t == "many_to_one"@ || t == "many_to_many"@
}

pub open spec fn delete_rule_known(t: Seq<char>) -> bool {
    t == "restrict"@ || t == "set_null"@ || t == "cascade"@
}

/// The relation types.
pub fn relation_types() -> (r: Vec<&'static str>)
    ensures
        r@.len() == 4,
        r@[0]@ == "one_to_one"@,
        r@[1]@ == "one_to_many"@,
        r@[2]@ == "many_to_one"@,
        r@[3]@ == "many_to_many"@,
{
    vec!["one_to_one", "one_to_many", "many_to_one", "many_to_many"]
}

/// What deleting a document does to the documents related to it.
pub fn delete_rules() -> (r: Vec<&'static str>)
    ensures
        r@.len() == 3,
        r@[0]@ == "restrict"@,
        r@[1]@ == "set_null"@,
        r@[2]@ == "cascade"@,
{
    vec!["restrict", "set_null", "cascade"]
}

pub fn validate_type(value: &str) -> (r: Result<(), AppError>)
    ensures
        r is Ok <==> relation_type_known(value@),
        r matches Err(e) ==> e is BadRequest && message_of(e) == "unknown relation type: "@
            + value@,
{
    if str_eq(value, "one_to_one") || str_eq(value, "one_to_many") || str_eq(value, "many_to_one")
        || str_eq(value, "many_to_many") {
        Ok(())
    } else {
        Err(bad_request_with("unknown relation type: ", &chars_of(value)))
    }
}

pub fn validate_delete(value: &str) -> (r: Result<(), AppError>)
    ensures
        r is Ok <==> delete_rule_known(value@),
        r matches Err(e) ==> e is BadRequest && message_of(e) == "unknown on_delete rule: "@
            + value@,
{
    if str_eq(value, "restrict") || str_eq(value, "set_null") || str_eq(value, "cascade") {
        Ok(())
    } else {
        Err(bad_request_with("unknown on_delete rule: ", &chars_of(value)))
    }
}

/// An entity related to itself needs the field that holds the reference,
/// unless the relation is many-to-many.
pub fn check_self_reference(
    source_entity_id: &str,
    target_entity_id: &str,
    has_source_field: bool,
    relation_type: &str,
) -> (r: Result<(), AppError>)
    ensures
        r is Ok <==> !(source_entity_id@ == target_entity_id@ && !has_source_field
            && relation_type@ != "many_to_many"@),
        r matches Err(e) ==> e is BadRequest && message_of(e)
            == "self-reference requires source_field_id"@,
{
    if str_eq(source_entity_id, target_entity_id) && !has_source_field && !str_eq(
        relation_type,
        "many_to_many",
    ) {
        return Err(bad_request("self-reference requires source_field_id"));
    }
    Ok(())
}

/// Relations other than many-to-many are held by a field of the source.
pub fn check_source_field(has_source_field: bool, relation_type: &str) -> (r: Result<(), AppError>)
    ensures
        r is Ok <==> (has_source_field || relation_type@ == "many_to_many"@),
        r matches Err(e) ==> e is BadRequest && message_of(e)
            == "source_field_id is required for non many-to-many relations"@,
{
    if !str_eq(relation_type, "many_to_many") && !has_source_field {
        return Err(bad_request("source_field_id is required for non many-to-many relations"));
    }
    Ok(())
}

/// Links are kept for many-to-many relations only.
pub fn check_links_allowed(relation: &Relation) -> (r: Result<(), AppError>)
    ensures
        r is Ok <==> relation.relation_type@ == "many_to_many"@,
        r matches Err(e) ==> e is BadRequest && message_of(e)
            == "links are only valid for many_to_many relations"@,
{
    if !str_eq(relation.relation_type.as_str(), "many_to_many") {
        return Err(bad_request("links are only valid for many_to_many relations"));
    }
    Ok(())
}

/// Where the documents related to a document are found.
pub enum RelatedLookup {
    /// The links from the document, as the source of a many-to-many relation.
    LinksFrom,
    /// The links to the document, as a target of a many-to-many relation.
    LinksTo,
    /// The document the source document's reference field names.
    Referenced,
    /// The source documents whose reference field names the document.
    Referrers,
    /// Nothing: a relation without a reference field.
    Nothing,
}

/// Decides where the related documents of `doc_id` are found, from whether
/// it is a document of the relation's source or target entity.
pub fn related_lookup(relation: &Relation, doc_id: &str, is_source: bool, is_target: bool) -> (r: Result<
    RelatedLookup,
    AppError,
>)
    ensures
        !is_source && !is_target ==> (r matches Err(e) && e is NotFound && message_of(e)
            == "document not found for relation: "@ + doc_id@),
        (is_source || is_target) ==> (r matches Ok(l) && if relation.relation_type@ == "many_to_many"@ {
            if is_source {
                l is LinksFrom
            } else {
                l is LinksTo
            }
        } else if relation.source_field_id is Some {
            if is_source {
                l is Referenced
            } else {
                l is Referrers
            }
        } else {
            l is Nothing
        }),
{
    if !is_source && !is_target {
        let mut m = chars_of("document not found for relation: ");
        push_str(&mut m, doc_id);
        return Err(AppError::NotFound(string_of(m.as_slice())));
    }
    if str_eq(relation.relation_type.as_str(), "many_to_many") {
        if is_source {
            Ok(RelatedLookup::LinksFrom)
        } else {
            Ok(RelatedLookup::LinksTo)
        }
    } else if relation.source_field_id.is_some() {
        if is_source {
            Ok(RelatedLookup::Referenced)
        } else {
            Ok(RelatedLookup::Referrers)
        }
    } else {
        Ok(RelatedLookup::Nothing)
    }
}

/// The documents, among `(id, payload)` rows in order, whose field `name`
/// holds the text `doc_id`.
pub open spec fn referrers(rows: Seq<(String, Json)>, name: Seq<char>, doc_id: Seq<char>) -> Seq<Seq<char>>
    decreases rows.len(),
{
    if rows.len() == 0 {
        Seq::empty()
    } else {
        let prev = referrers(rows.drop_last(), name, doc_id);
        if str_of(get_spec(rows.last().1, name)) == Some(doc_id) {
            prev.push(rows.last().0@)
        } else {
            prev
        }
    }
}

pub fn referring_ids(rows: &Vec<(String, Json)>, name: &str, doc_id: &str) -> (r: Vec<String>)
    ensures
        string_views(r@) == referrers(rows@, name@, doc_id@),
{
    let mut out: Vec<String> = Vec::new();
    let mut i: usize = 0;
    while i < rows.len()
        invariant
            i <= rows.len(),
            string_views(out@) == referrers(rows@.take(i as int), name@, doc_id@),
        decreases rows.len() - i,
    {
        assert(rows@.take(i + 1).drop_last() =~= rows@.take(i as int));
        assert(rows@.take(i + 1).last() == rows@[i as int]);
        if let Some(v) = rows[i].1.get_str(name) {
            if str_eq(v.as_str(), doc_id) {
                let ghost before = out@;
                out.push(string_from(rows[i].0.as_str()));
                assert(string_views(out@) =~= string_views(before).push(rows@[i as int].0@));
            }
        }
        i += 1;
    }
    assert(rows@.take(rows.len() as int) =~= rows@);
    out
}

/// The id a referenced document is found under: the text in the source
/// document's reference field, if any.
pub fn referenced_id(payload: &Json, name: &str) -> (r: Option<String>)
    ensures
        match str_of(get_spec(*payload, name@)) {
            Some(s) => r matches Some(x) && x@ == s,
            None => r is None,
        },
{
    match payload.get_str(name) {
        Some(s) => Some(string_from(s.as_str())),
        None => None,
    }
}

/// A related document as returned: its payload with its `id` set.
pub fn with_id(payload: Json, id: String) -> (r: Json)
    ensures
        match payload {
            Json::Object(e) => r matches Json::Object(x) && member(x@, "id"@) == Some(Json::String(id))
                && forall|k: Seq<char>| k != "id"@ ==> member(x@, k) == member(e@, k),
            _ => r == payload,
        },
{
    match payload {
        Json::Object(mut e) => {
            insert_member(&mut e, string_from("id"), Json::String(id));
            Json::Object(e)
        },
        other => other,
    }
}

} // verus!
