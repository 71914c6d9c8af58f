//! Reading and rewriting the patch section of a manifest document.
//!
//! The document itself is handled by `toml_edit`, which parses manifest
//! text into a structured form and serializes it back with every untouched
//! part reproduced exactly, a leading byte-order mark excepted. The library
//! trusts that interface: the names below stand for what a manifest text
//! holds, and each wrapper states what its call does over those names.

use vstd::prelude::*;

use crate::fspath::FsPath;
use crate::plan::entry_rewritten;
use crate::plan::invalid_root_justified;
use crate::plan::locate_failure_justified;
use crate::plan::locator_callable;
use crate::plan::locator_reliable;
use crate::plan::locator_reliable_for;
use crate::plan::rewrite_patch_values;
use crate::plan::roots_located;
use crate::plan::values_rewritten;
use crate::plan::workspaces_from;
use crate::plan::workspaces_in_discovery_order;
use crate::plan::workspaces_wf;
use crate::plan::PatchError;
use crate::plan::PatchProject;

verus! {

#[verifier::external_type_specification]
#[verifier::external_body]
pub struct ExDocumentMut(toml_edit::DocumentMut);

/// Whether `s` is a well-formed manifest text.
pub uninterp spec fn toml_parses(s: Seq<char>) -> bool;

/// `s` without a leading byte-order mark. The document parser consumes
/// one, so a parsed document serializes back without it.
pub open spec fn strip_bom(s: Seq<char>) -> Seq<char> {
    if s.len() > 0 && s[0] == '\u{feff}' {
        s.drop_first()
    } else {
        s
    }
}

/// Whether the manifest text `s` has a top-level table named `section`.
pub uninterp spec fn toml_has_section(s: Seq<char>, section: Seq<char>) -> bool;

/// The inline-table entries two levels under the top-level table `section`
/// of the manifest text `s`, in document order; for each, its string value
/// at `key` when it has one.
pub uninterp spec fn toml_string_entries(s: Seq<char>, section: Seq<char>, key: Seq<char>) -> Seq<
    Option<Seq<char>>,
>;

/// The text a document serializes back to.
pub uninterp spec fn doc_text(d: toml_edit::DocumentMut) -> Seq<char>;

/// The manifest text `s` with the `key` values of its entries under
/// `section` updated: entry `k` gets the string under `vals[k]` where that
/// holds one, and stays exactly as it was written where `vals[k]` is
/// `None`. No other part of the text changes.
pub uninterp spec fn toml_with_string_entries(
    s: Seq<char>,
    section: Seq<char>,
    key: Seq<char>,
    vals: Seq<Option<Seq<char>>>,
) -> Seq<char>;

/// The patch path entries of a manifest text: for each crate override
/// under the top-level `patch` section, its `path` string value if it has
/// one.
pub open spec fn manifest_patch_values(s: Seq<char>) -> Seq<Option<Seq<char>>> {
    toml_string_entries(s, seq!['p', 'a', 't', 'c', 'h'], seq!['p', 'a', 't', 'h'])
}

/// Whether a manifest text has a `patch` section at all.
pub open spec fn manifest_has_patches(s: Seq<char>) -> bool {
    toml_has_section(s, seq!['p', 'a', 't', 'c', 'h'])
}

/// A manifest text with its patch path values updated.
pub open spec fn manifest_with_patch_values(s: Seq<char>, vals: Seq<Option<Seq<char>>>) -> Seq<
    char,
> {
    toml_with_string_entries(
        s,
        seq!['p', 'a', 't', 'c', 'h'],
        seq!['p', 'a', 't', 'h'],
        vals,
    )
}

/// The entries after an update: where the update holds a value, that
/// value; elsewhere the original entry.
pub open spec fn merged_entries(
    orig: Seq<Option<Seq<char>>>,
    upd: Seq<Option<Seq<char>>>,
) -> Seq<Option<Seq<char>>> {
    Seq::new(orig.len(), |k: int| if upd[k] is Some { upd[k] } else { orig[k] })
}

/// Relies on toml_edit: `str::parse::<DocumentMut>` accepts exactly the
/// well-formed manifest texts, and an unedited document serializes back to
/// its source text byte for byte, except that a leading byte-order mark is
/// consumed by the lexer and not reproduced.
#[verifier::external_body]
fn parse_toml_document(text: &str) -> (r: Result<toml_edit::DocumentMut, String>)
    ensures
        r is Ok <==> toml_parses(text@),
        r matches Ok(d) ==> doc_text(d) == strip_bom(text@),
{
    match text.parse::<toml_edit::DocumentMut>() {
        Ok(d) => Ok(d),
        Err(e) => Err(e.to_string()),
    }
}

/// Relies on toml_edit's document model: `get` finds a top-level item,
/// `as_table` and `as_inline_table` tell the kinds of nested items apart,
/// and iteration yields a table's entries in document order.
#[verifier::external_body]
fn doc_string_entries(doc: &toml_edit::DocumentMut, section: &str, key: &str) -> (r: Option<
    Vec<Option<String>>,
>)
    ensures
        r is Some <==> toml_has_section(doc_text(*doc), section@),
        r matches Some(v) ==> v.deep_view() == toml_string_entries(doc_text(*doc), section@, key@),
{
    let tables = doc.as_table().get(section)?.as_table()?;
    let out = tables
        .iter()
        .filter_map(|(_, item)| item.as_table())
        .flat_map(|group| group.iter())
        .filter_map(|(_, entry)| entry.as_inline_table())
        .map(|t| t.get(key).and_then(|v| v.as_str()).map(|s| s.to_owned()))
        .collect();
    Some(out)
}

/// Relies on toml_edit: `insert` on an inline table replaces the value at
/// `key`, normalizing the spacing around that one key, and leaves every
/// untouched entry and everything outside the entries as it was; an entry
/// handed no new value is not touched at all. The new text is a function
/// of the old text and the handed values alone.
#[verifier::external_body]
fn set_doc_string_entries(
    doc: &mut toml_edit::DocumentMut,
    section: &str,
    key: &str,
    vals: &Vec<Option<String>>,
)
    requires
        vals.deep_view().len() == toml_string_entries(doc_text(*old(doc)), section@, key@).len(),
    ensures
        toml_has_section(doc_text(*final(doc)), section@) == toml_has_section(
            doc_text(*old(doc)),
            section@,
        ),
        toml_string_entries(doc_text(*final(doc)), section@, key@) == merged_entries(
            toml_string_entries(doc_text(*old(doc)), section@, key@),
            vals.deep_view(),
        ),
        (forall|j: int| 0 <= j < vals@.len() ==> vals@[j] is None) ==> doc_text(*final(doc))
            == doc_text(*old(doc)),
        doc_text(*final(doc)) == toml_with_string_entries(
            doc_text(*old(doc)),
            section@,
            key@,
            vals.deep_view(),
        ),
{
    let tables = match doc.as_table_mut().get_mut(section).and_then(|i| i.as_table_mut()) {
        Some(t) => t,
        None => return ,
    };
    let entries = tables
        .iter_mut()
        .filter_map(|(_, item)| item.as_table_mut())
        .flat_map(|group| group.iter_mut())
        .filter_map(|(_, entry)| entry.as_inline_table_mut());
    for (k, t) in entries.enumerate() {
        if let Some(Some(v)) = vals.get(k) {
            t.insert(key, toml_edit::Value::from(v.as_str()));
        }
    }
}

/// Relies on toml_edit: `Display` for a document writes exactly its
/// serialized text.
#[verifier::external_body]
fn toml_document_text(doc: &toml_edit::DocumentMut) -> (r: String)
    ensures
        r@ == doc_text(*doc),
{
    doc.to_string()
}

proof fn lemma_merged_is_update(orig: Seq<Option<Seq<char>>>, upd: Seq<Option<Seq<char>>>)
    requires
        upd.len() == orig.len(),
        forall|k: int| 0 <= k < orig.len() ==> ((#[trigger] upd[k]) is None <==> orig[k] is None),
    ensures
        merged_entries(orig, upd) =~= upd,
{
    assert forall|k: int| 0 <= k < orig.len() implies merged_entries(orig, upd)[k] == upd[k] by {
        if upd[k] is None {
            assert(orig[k] is None);
        }
    }
}

/// Parse the manifest, collect its patch path entries, rewrite each one,
/// and put the new values back into the document. A leading byte-order
/// mark is consumed by the parser and not reproduced. `Ok(None)` means the
/// manifest has no `patch` section, so there is nothing to transfer and
/// nothing was changed. On success the returned document holds the
/// rewritten path values and nothing else of it was touched, and the
/// workspace list holds each referenced workspace exactly once, in
/// first-discovery order.
pub fn extract_patched_crates_and_adjust_toml<F: Fn(&FsPath) -> Result<FsPath, String>>(
    manifest_content: String,
    locate_workspace: F,
) -> (r: Result<Option<(toml_edit::DocumentMut, Vec<PatchProject>)>, PatchError>)
    requires
        locator_callable(locate_workspace),
    ensures
        r matches Err(e) && e is ManifestParse <==> !toml_parses(manifest_content@),
        toml_parses(manifest_content@) && !manifest_has_patches(strip_bom(manifest_content@)) ==> (r matches Ok(o)
            && o is None),
        r matches Ok(o) ==> (o is None <==> !manifest_has_patches(strip_bom(manifest_content@))),
        r matches Ok(o) ==> (o matches Some(pair) ==> {
            &&& values_rewritten(
                manifest_patch_values(strip_bom(manifest_content@)),
                manifest_patch_values(doc_text(pair.0)),
                pair.1@,
            )
            &&& workspaces_wf(pair.1@)
            &&& workspaces_from(pair.1@, manifest_patch_values(strip_bom(manifest_content@)))
            &&& workspaces_in_discovery_order(pair.1@, manifest_patch_values(strip_bom(manifest_content@)))
            &&& roots_located(locate_workspace, pair.1@)
            &&& manifest_has_patches(doc_text(pair.0))
            &&& doc_text(pair.0) == manifest_with_patch_values(
                strip_bom(manifest_content@),
                manifest_patch_values(doc_text(pair.0)),
            )
            &&& (forall|k: int|
                0 <= k < manifest_patch_values(strip_bom(manifest_content@)).len() ==> (
                #[trigger] manifest_patch_values(strip_bom(manifest_content@))[k]) is None) ==> (doc_text(
                pair.0,
            ) == strip_bom(manifest_content@) && pair.1@.len() == 0)
        }),
        toml_parses(manifest_content@) && locator_reliable(locate_workspace) ==> r is Ok,
        toml_parses(manifest_content@) && locator_reliable_for(
            locate_workspace,
            manifest_patch_values(strip_bom(manifest_content@)),
        ) ==> r is Ok,
        toml_parses(manifest_content@) && (forall|k: int|
            0 <= k < manifest_patch_values(strip_bom(manifest_content@)).len() ==> (
            #[trigger] manifest_patch_values(strip_bom(manifest_content@))[k]) is None) ==> r is Ok,
        r is Err && toml_parses(manifest_content@) ==> exists|k: int|
            0 <= k < manifest_patch_values(strip_bom(manifest_content@)).len() && (
            #[trigger] manifest_patch_values(strip_bom(manifest_content@))[k]) is Some,
        r matches Err(e) ==> (e matches PatchError::WorkspaceNotFound { path, message }
            ==> locate_failure_justified(
            locate_workspace,
            manifest_patch_values(strip_bom(manifest_content@)),
            path,
            message,
        )),
        r matches Err(e) ==> (e matches PatchError::InvalidWorkspaceRoot { path, root }
            ==> invalid_root_justified(
            locate_workspace,
            manifest_patch_values(strip_bom(manifest_content@)),
            path,
            root,
        )),
{
    let doc = match parse_toml_document(manifest_content.as_str()) {
        Ok(d) => d,
        Err(e) => {
            return Err(PatchError::ManifestParse(e));
        },
    };
    proof {
        reveal_strlit("patch");
        reveal_strlit("path");
        assert("patch"@ =~= seq!['p', 'a', 't', 'c', 'h']);
        assert("path"@ =~= seq!['p', 'a', 't', 'h']);
    }
    let entries = match doc_string_entries(&doc, "patch", "path") {
        Some(v) => v,
        None => {
            return Ok(None);
        },
    };
    let ghost orig_vals = manifest_patch_values(strip_bom(manifest_content@));
    proof {
        assert(entries.deep_view() == orig_vals);
    }
    let pair = match rewrite_patch_values(&entries, locate_workspace) {
        Ok(x) => x,
        Err(e) => {
            proof {
                assert(entries.deep_view() == manifest_patch_values(strip_bom(manifest_content@)));
                assert(e matches PatchError::WorkspaceNotFound { path, message }
                    ==> locate_failure_justified(
                    locate_workspace,
                    manifest_patch_values(strip_bom(manifest_content@)),
                    path,
                    message,
                ));
                assert(e matches PatchError::InvalidWorkspaceRoot { path, root }
                    ==> invalid_root_justified(
                    locate_workspace,
                    manifest_patch_values(strip_bom(manifest_content@)),
                    path,
                    root,
                ));
                let kk = choose|kk: int|
                    0 <= kk < entries.deep_view().len() && (#[trigger] entries.deep_view()[kk])
                        is Some;
                assert(manifest_patch_values(strip_bom(manifest_content@))[kk] is Some);
                assert((forall|k: int|
                    0 <= k < manifest_patch_values(strip_bom(manifest_content@)).len() ==> (
                    #[trigger] manifest_patch_values(strip_bom(manifest_content@))[k]) is None) ==> false) by {
                    if forall|k: int|
                        0 <= k < manifest_patch_values(strip_bom(manifest_content@)).len() ==> (
                        #[trigger] manifest_patch_values(strip_bom(manifest_content@))[k]) is None {
                        assert forall|k: int|
                            0 <= k < entries.deep_view().len() implies (
                            #[trigger] entries.deep_view()[k]) is None by {
                            assert(entries.deep_view()[k] == manifest_patch_values(
                                strip_bom(manifest_content@),
                            )[k]);
                        }
                        assert(false);
                    }
                }
            }
            return Err(e);
        },
    };
    let new_vals = pair.0;
    let projects = pair.1;
    let mut doc = doc;
    set_doc_string_entries(&mut doc, "patch", "path", &new_vals);
    proof {
        let ndv = new_vals.deep_view();
        assert(ndv.len() == orig_vals.len());
        assert forall|j: int| 0 <= j < orig_vals.len() implies ((#[trigger] ndv[j]) is None
            <==> orig_vals[j] is None) by {
            assert(entry_rewritten(orig_vals[j], ndv[j], projects@));
        }
        lemma_merged_is_update(orig_vals, ndv);
        assert(manifest_patch_values(doc_text(doc)) == ndv);
        assert(doc_text(doc) == toml_with_string_entries(
            strip_bom(manifest_content@),
            "patch"@,
            "path"@,
            ndv,
        ));
        assert(doc_text(doc) == manifest_with_patch_values(
            strip_bom(manifest_content@),
            manifest_patch_values(doc_text(doc)),
        ));
        assert forall|j: int| 0 <= j < new_vals@.len() implies ((#[trigger] new_vals@[j]) is None
            <==> ndv[j] is None) by {
            assert(ndv[j] == new_vals@[j].deep_view());
        }
        assert((forall|k: int|
            0 <= k < orig_vals.len() ==> (#[trigger] orig_vals[k]) is None) ==> (doc_text(doc)
            == strip_bom(manifest_content@) && projects@.len() == 0)) by {
            if forall|k: int| 0 <= k < orig_vals.len() ==> (#[trigger] orig_vals[k]) is None {
                assert forall|j: int| 0 <= j < new_vals@.len() implies (#[trigger] new_vals@[j])
                    is None by {
                    assert(orig_vals[j] is None);
                }
            }
        }
    }
    Ok(Some((doc, projects)))
}

/// Parse `manifest_content`, rewrite its patch paths, and hand back the new
/// manifest text together with the workspaces to transfer. `Ok(None)` means
/// the manifest has no `patch` section and the operation is a no-op. When
/// no entry holds a path value, the returned text is the input, byte for
/// byte but for a leading byte-order mark, which the parser consumes.
pub fn rewrite_manifest_text<F: Fn(&FsPath) -> Result<FsPath, String>>(
    manifest_content: String,
    locate_workspace: F,
) -> (r: Result<Option<(String, Vec<PatchProject>)>, PatchError>)
    requires
        locator_callable(locate_workspace),
    ensures
        r matches Err(e) && e is ManifestParse <==> !toml_parses(manifest_content@),
        toml_parses(manifest_content@) && !manifest_has_patches(strip_bom(manifest_content@)) ==> (r matches Ok(o)
            && o is None),
        r matches Ok(o) ==> (o is None <==> !manifest_has_patches(strip_bom(manifest_content@))),
        r matches Ok(o) ==> (o matches Some(pair) ==> {
            &&& values_rewritten(
                manifest_patch_values(strip_bom(manifest_content@)),
                manifest_patch_values(pair.0@),
                pair.1@,
            )
            &&& workspaces_wf(pair.1@)
            &&& workspaces_from(pair.1@, manifest_patch_values(strip_bom(manifest_content@)))
            &&& workspaces_in_discovery_order(pair.1@, manifest_patch_values(strip_bom(manifest_content@)))
            &&& roots_located(locate_workspace, pair.1@)
            &&& manifest_has_patches(pair.0@)
            &&& pair.0@ == manifest_with_patch_values(
                strip_bom(manifest_content@),
                manifest_patch_values(pair.0@),
            )
            &&& (forall|k: int|
                0 <= k < manifest_patch_values(strip_bom(manifest_content@)).len() ==> (
                #[trigger] manifest_patch_values(strip_bom(manifest_content@))[k]) is None) ==> (pair.0@
                == strip_bom(manifest_content@) && pair.1@.len() == 0)
        }),
        toml_parses(manifest_content@) && locator_reliable(locate_workspace) ==> r is Ok,
        toml_parses(manifest_content@) && locator_reliable_for(
            locate_workspace,
            manifest_patch_values(strip_bom(manifest_content@)),
        ) ==> r is Ok,
        toml_parses(manifest_content@) && (forall|k: int|
            0 <= k < manifest_patch_values(strip_bom(manifest_content@)).len() ==> (
            #[trigger] manifest_patch_values(strip_bom(manifest_content@))[k]) is None) ==> r is Ok,
        r is Err && toml_parses(manifest_content@) ==> exists|k: int|
            0 <= k < manifest_patch_values(strip_bom(manifest_content@)).len() && (
            #[trigger] manifest_patch_values(strip_bom(manifest_content@))[k]) is Some,
        r matches Err(e) ==> (e matches PatchError::WorkspaceNotFound { path, message }
            ==> locate_failure_justified(
            locate_workspace,
            manifest_patch_values(strip_bom(manifest_content@)),
            path,
            message,
        )),
        r matches Err(e) ==> (e matches PatchError::InvalidWorkspaceRoot { path, root }
            ==> invalid_root_justified(
            locate_workspace,
            manifest_patch_values(strip_bom(manifest_content@)),
            path,
            root,
        )),
{
    match extract_patched_crates_and_adjust_toml(manifest_content, locate_workspace) {
        Ok(Some(pair)) => {
            let text = toml_document_text(&pair.0);
            Ok(Some((text, pair.1)))
        },
        Ok(None) => Ok(None),
        Err(e) => Err(e),
    }
}

} // verus!
