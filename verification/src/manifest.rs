//! Rewriting a manifest: the declared versions of the changed packages are
//! replaced in the dependency sections, and nothing else is touched.

use crate::json::{
    distinct_keys, json_parsed, json_printed, json_value, member_views, members_of, parse_value,
    print_value, table_value, text_value, Json, Member,
};
use crate::version::{change_views, ChangeView, PkgChange};
use vstd::prelude::*;
use vstd::string::*;

verus! {

/// Why a manifest was not rewritten.
#[derive(Debug, Clone, Copy, PartialEq, Eq, Structural)]
pub enum ManifestError {
    /// The text is not JSON.
    NotJson,
    /// A dependency section is there and is not an object.
    MalformedManifest,
    /// The rewritten document could not be written out as text.
    NotPrintable,
}

/// Whether `key` names one of the three dependency sections.
pub open spec fn is_section(key: Seq<char>) -> bool {
    key == "dependencies"@ || key == "devDependencies"@ || key == "overrides"@
}

/// The change that applies to the package `name`: the last one for it.
pub open spec fn change_for(changes: Seq<ChangeView>, name: Seq<char>) -> Option<ChangeView>
    decreases changes.len(),
{
    if changes.len() == 0 {
        None
    } else if changes.last().pkg.name == name {
        Some(changes.last())
    } else {
        change_for(changes.drop_last(), name)
    }
}

/// A member of a dependency section after the rewrite: where a change
/// applies to its key, its value is the new version behind the declared
/// range prefix.
pub open spec fn patched_member(m: (Seq<char>, Json), changes: Seq<ChangeView>) -> (
    Seq<char>,
    Json,
) {
    match change_for(changes, m.0) {
        Some(c) => (m.0, Json::Text(c.updated())),
        None => m,
    }
}

/// The members of a dependency section after the rewrite.
pub open spec fn patched_section(
    members: Seq<(Seq<char>, Json)>,
    changes: Seq<ChangeView>,
) -> Seq<(Seq<char>, Json)> {
    members.map_values(|m: (Seq<char>, Json)| patched_member(m, changes))
}

/// A top-level field after the rewrite.
pub open spec fn patched_field(f: (Seq<char>, Json), changes: Seq<ChangeView>) -> (
    Seq<char>,
    Json,
) {
    if is_section(f.0) {
        match f.1 {
            Json::Table(members) => (f.0, Json::Table(patched_section(members, changes))),
            _ => f,
        }
    } else {
        f
    }
}

/// The document after the rewrite. A document that is not an object has no
/// dependency sections and stays as it is.
pub open spec fn patched(doc: Json, changes: Seq<ChangeView>) -> Json {
    match doc {
        Json::Table(fields) => Json::Table(
            fields.map_values(|f: (Seq<char>, Json)| patched_field(f, changes)),
        ),
        _ => doc,
    }
}

/// Whether a field is a dependency section that is not an object.
pub open spec fn bad_section(f: (Seq<char>, Json)) -> bool {
    is_section(f.0) && !(f.1 is Table)
}

/// Whether the document holds a dependency section that is not an object.
pub open spec fn malformed(doc: Json) -> bool {
    doc matches Json::Table(fields) && exists|i: int|
        0 <= i < fields.len() && bad_section(#[trigger] fields[i])
}

/// Whether `key` names one of the three dependency sections.
pub fn is_section_key(key: &String) -> (r: bool)
    ensures
        r == is_section(key@),
{
    *key == String::from_str("dependencies") || *key == String::from_str("devDependencies")
        || *key == String::from_str("overrides")
}

/// The place of the change that applies to the package `name`.
pub fn find_change(changes: &Vec<PkgChange>, name: &String) -> (r: Option<usize>)
    ensures
        r matches Some(i) ==> i < changes@.len() && change_for(change_views(changes@), name@)
            == Some(changes@[i as int]@) && changes@[i as int]@.pkg.name == name@,
        r matches Some(i) ==> forall|k: int|
            i < k < changes@.len() ==> (#[trigger] changes@[k])@.pkg.name != name@,
        r is None ==> change_for(change_views(changes@), name@) is None,
{
    let ghost all = change_views(changes@);
    let mut i: usize = changes.len();
    proof {
        assert(all.take(i as int) =~= all);
    }
    while i > 0
        invariant
            0 <= i <= changes.len(),
            all == change_views(changes@),
            change_for(all, name@) == change_for(all.take(i as int), name@),
            forall|k: int| i <= k < changes@.len() ==> (#[trigger] changes@[k])@.pkg.name != name@,
        decreases i,
    {
        proof {
            assert(all.take(i as int).drop_last() =~= all.take(i - 1));
            assert(all.take(i as int).last() == changes@[i - 1]@);
        }
        if changes[i - 1].pkg.name == *name {
            return Some(i - 1);
        }
        i -= 1;
    }
    None
}

/// Rewrites the members of one dependency section in place.
fn patch_section(members: &mut Vec<Member>, changes: &Vec<PkgChange>)
    ensures
        member_views(final(members)@) == patched_section(
            member_views(old(members)@),
            change_views(changes@),
        ),
{
    let ghost before = member_views(members@);
    let ghost cs = change_views(changes@);
    let mut j: usize = 0;
    while j < members.len()
        invariant
            0 <= j <= members.len(),
            cs == change_views(changes@),
            members@.len() == before.len(),
            forall|k: int| 0 <= k < j ==> (#[trigger] members@[k])@ == patched_member(before[k], cs),
            forall|k: int| j <= k < before.len() ==> (#[trigger] members@[k])@ == before[k],
        decreases members.len() - j,
    {
        match find_change(changes, &members[j].key) {
            Some(i) => {
                let change = &changes[i];
                members[j].value = text_value(change.pkg.with_prefix(change.to.clone()));
            },
            None => {},
        }
        j += 1;
    }
    proof {
        assert(member_views(members@) =~= patched_section(before, cs));
    }
}

/// Rewrites a document: in each dependency section that is there, the value
/// of every key that a change names becomes the new version behind the
/// declared range prefix. Keys that no change names, and everything outside
/// the dependency sections, stay as they are and where they are.
pub fn patch_document(doc: serde_json::Value, changes: &Vec<PkgChange>) -> (r: Result<
    serde_json::Value,
    ManifestError,
>)
    ensures
        r is Err <==> malformed(json_value(doc)),
        r matches Err(e) ==> e == ManifestError::MalformedManifest,
        r matches Ok(out) ==> json_value(out) == patched(json_value(doc), change_views(changes@)),
{
    let ghost cs = change_views(changes@);
    let mut fields = match members_of(&doc) {
        None => {
            return Ok(doc);
        },
        Some(fields) => fields,
    };
    let ghost before = member_views(fields@);
    let mut i: usize = 0;
    while i < fields.len()
        invariant
            0 <= i <= fields.len(),
            cs == change_views(changes@),
            json_value(doc) == Json::Table(before),
            distinct_keys(before),
            fields@.len() == before.len(),
            forall|k: int| 0 <= k < i ==> !bad_section(#[trigger] before[k]),
            forall|k: int| 0 <= k < i ==> (#[trigger] fields@[k])@ == patched_field(before[k], cs),
            forall|k: int| i <= k < before.len() ==> (#[trigger] fields@[k])@ == before[k],
        decreases fields.len() - i,
    {
        if is_section_key(&fields[i].key) {
            match members_of(&fields[i].value) {
                None => {
                    assert(bad_section(before[i as int]));
                    return Err(ManifestError::MalformedManifest);
                },
                Some(mut members) => {
                    let ghost was = member_views(members@);
                    patch_section(&mut members, changes);
                    proof {
                        assert forall|a: int, b: int|
                            0 <= a < b < member_views(members@).len() implies (
                        #[trigger] member_views(members@)[a]).0 != (#[trigger] member_views(
                            members@,
                        )[b]).0 by {
                            assert(member_views(members@)[a].0 == was[a].0);
                            assert(member_views(members@)[b].0 == was[b].0);
                        }
                    }
                    fields[i].value = table_value(members);
                },
            }
        }
        i += 1;
    }
    proof {
        let after = member_views(fields@);
        assert(after =~= before.map_values(|f: (Seq<char>, Json)| patched_field(f, cs)));
        assert forall|a: int, b: int| 0 <= a < b < after.len() implies (#[trigger] after[a]).0 != (
        #[trigger] after[b]).0 by {
            assert(after[a].0 == before[a].0);
            assert(after[b].0 == before[b].0);
        }
    }
    Ok(table_value(fields))
}

/// The outcome of rewriting a manifest text, given what the text parses to
/// and what the rewritten document prints as.
pub open spec fn rewritten(
    parsed: Option<Json>,
    changes: Seq<ChangeView>,
) -> Result<Seq<char>, ManifestError> {
    match parsed {
        None => Err(ManifestError::NotJson),
        Some(doc) => if malformed(doc) {
            Err(ManifestError::MalformedManifest)
        } else {
            match json_printed(patched(doc, changes)) {
                Some(text) => Ok(text),
                None => Err(ManifestError::NotPrintable),
            }
        },
    }
}

/// The value of a text or an error.
pub open spec fn text_result_view(r: Result<String, ManifestError>) -> Result<
    Seq<char>,
    ManifestError,
> {
    match r {
        Ok(text) => Ok(text@),
        Err(e) => Err(e),
    }
}

/// Rewrites the text of a manifest: parses it, replaces the declared
/// versions of the changed packages, and writes the document out again.
pub fn replace_deps(manifest: &str, changes: &Vec<PkgChange>) -> (r: Result<
    String,
    ManifestError,
>)
    ensures
        text_result_view(r) == rewritten(json_parsed(manifest@), change_views(changes@)),
{
    let doc = match parse_value(manifest) {
        Ok(doc) => doc,
        Err(_) => {
            return Err(ManifestError::NotJson);
        },
    };
    let out = match patch_document(doc, changes) {
        Ok(out) => out,
        Err(e) => {
            return Err(e);
        },
    };
    match print_value(&out) {
        Ok(text) => Ok(text),
        Err(_) => Err(ManifestError::NotPrintable),
    }
}

/// `change_for` finds a change exactly when some change names the package,
/// and the change it finds names it.
pub proof fn lemma_change_for(changes: Seq<ChangeView>, name: Seq<char>)
    ensures
        change_for(changes, name) is None <==> forall|i: int|
            0 <= i < changes.len() ==> (#[trigger] changes[i]).pkg.name != name,
        change_for(changes, name) matches Some(c) ==> c.pkg.name == name && changes.contains(c),
    decreases changes.len(),
{
    if changes.len() > 0 {
        let rest = changes.drop_last();
        lemma_change_for(rest, name);
        if changes.last().pkg.name == name {
            assert(changes[changes.len() - 1] == changes.last());
        } else {
            assert forall|i: int| 0 <= i < rest.len() implies rest[i] == changes[i] by {}
            if change_for(rest, name) is None {
                assert forall|i: int| 0 <= i < changes.len() implies (
                #[trigger] changes[i]).pkg.name != name by {
                    if i < rest.len() {
                        assert(rest[i].pkg.name != name);
                    }
                }
            } else {
                let c = change_for(rest, name)->0;
                let k = choose|k: int| 0 <= k < rest.len() && rest[k] == c;
                assert(changes[k] == c);
                if forall|i: int| 0 <= i < changes.len() ==> (#[trigger] changes[i]).pkg.name != name {
                    assert(changes[k].pkg.name != name);
                }
            }
        }
    }
}

/// Rewriting a document twice with the same changes gives what rewriting it
/// once gives; and a document is refused after the rewrite exactly when it
/// was refused before.
pub proof fn lemma_patch_idempotent(doc: Json, changes: Seq<ChangeView>)
    ensures
        patched(patched(doc, changes), changes) == patched(doc, changes),
        malformed(patched(doc, changes)) == malformed(doc),
{
    match doc {
        Json::Table(fields) => {
            let once = fields.map_values(|f: (Seq<char>, Json)| patched_field(f, changes));
            let twice = once.map_values(|f: (Seq<char>, Json)| patched_field(f, changes));
            assert forall|i: int| 0 <= i < fields.len() implies twice[i] == once[i]
                && bad_section(once[i]) == bad_section(fields[i]) by {
                lemma_field_idempotent(fields[i], changes);
            }
            assert(twice =~= once);
            if malformed(doc) {
                let i = choose|i: int| 0 <= i < fields.len() && bad_section(#[trigger] fields[i]);
                assert(bad_section(once[i]));
            }
            if malformed(patched(doc, changes)) {
                let i = choose|i: int| 0 <= i < once.len() && bad_section(#[trigger] once[i]);
                assert(bad_section(fields[i]));
            }
        },
        _ => {},
    }
}

proof fn lemma_field_idempotent(f: (Seq<char>, Json), changes: Seq<ChangeView>)
    ensures
        patched_field(patched_field(f, changes), changes) == patched_field(f, changes),
        bad_section(patched_field(f, changes)) == bad_section(f),
{
    if is_section(f.0) {
        match f.1 {
            Json::Table(members) => {
                let once = patched_section(members, changes);
                let twice = patched_section(once, changes);
                assert(twice =~= once);
            },
            _ => {},
        }
    }
}

/// The rewrite is local. The document keeps its fields, their keys and
/// their order; a field outside the three dependency sections keeps its
/// value; a dependency section keeps its members, their keys and their
/// order; and a member whose key no change names keeps its value. The value
/// of a member that a change names is the new version behind the declared
/// range prefix.
pub proof fn lemma_patch_local(doc: Json, changes: Seq<ChangeView>)
    ensures
        !(doc is Table) ==> patched(doc, changes) == doc,
        doc is Table ==> patched(doc, changes) is Table && fields_kept(
            doc->Table_0,
            patched(doc, changes)->Table_0,
            changes,
        ),
{
    match doc {
        Json::Table(fields) => {
            let after = fields.map_values(|f: (Seq<char>, Json)| patched_field(f, changes));
            assert forall|i: int| 0 <= i < fields.len() implies field_kept(
                #[trigger] fields[i],
                after[i],
                changes,
            ) by {
                match fields[i].1 {
                    Json::Table(members) => {
                        if is_section(fields[i].0) {
                            let rewritten_members = patched_section(members, changes);
                            assert(after[i].1 == Json::Table(rewritten_members));
                            assert forall|j: int| 0 <= j < members.len() implies member_kept(
                                #[trigger] members[j],
                                rewritten_members[j],
                                changes,
                            ) by {
                                lemma_change_for(changes, members[j].0);
                                match change_for(changes, members[j].0) {
                                    Some(c) => {
                                        let k = choose|k: int|
                                            0 <= k < changes.len() && changes[k] == c;
                                        assert(changes[k].pkg.name == members[j].0);
                                    },
                                    None => {},
                                }
                            }
                        }
                    },
                    _ => {},
                }
            }
        },
        _ => {},
    }
}

/// What the rewrite does to one member of a dependency section: the key
/// stays; the value stays where no change names the key, and is the updated
/// version of the last change that names it otherwise.
pub open spec fn member_kept(
    before: (Seq<char>, Json),
    after: (Seq<char>, Json),
    changes: Seq<ChangeView>,
) -> bool {
    &&& after.0 == before.0
    &&& (forall|k: int| 0 <= k < changes.len() ==> (#[trigger] changes[k]).pkg.name != before.0)
        ==> after == before
    &&& (exists|k: int| 0 <= k < changes.len() && (#[trigger] changes[k]).pkg.name == before.0)
        ==> exists|k: int|
        0 <= k < changes.len() && (#[trigger] changes[k]).pkg.name == before.0 && after.1
            == Json::Text(changes[k].updated())
}

/// What the rewrite does to a dependency section, member by member.
pub open spec fn section_kept(
    before: Seq<(Seq<char>, Json)>,
    after: Seq<(Seq<char>, Json)>,
    changes: Seq<ChangeView>,
) -> bool {
    &&& after.len() == before.len()
    &&& forall|j: int|
        0 <= j < before.len() ==> member_kept(#[trigger] before[j], after[j], changes)
}

/// What the rewrite does to one top-level field: the key stays; the value
/// stays unless the field is a dependency section, whose members are
/// rewritten one by one.
pub open spec fn field_kept(
    before: (Seq<char>, Json),
    after: (Seq<char>, Json),
    changes: Seq<ChangeView>,
) -> bool {
    &&& after.0 == before.0
    &&& !is_section(before.0) || !(before.1 is Table) ==> after == before
    &&& is_section(before.0) && before.1 is Table ==> after.1 is Table && section_kept(
        before.1->Table_0,
        after.1->Table_0,
        changes,
    )
}

/// What the rewrite does to the top-level fields, field by field.
pub open spec fn fields_kept(
    before: Seq<(Seq<char>, Json)>,
    after: Seq<(Seq<char>, Json)>,
    changes: Seq<ChangeView>,
) -> bool {
    &&& after.len() == before.len()
    &&& forall|i: int| 0 <= i < before.len() ==> field_kept(#[trigger] before[i], after[i], changes)
}

} // verus!
