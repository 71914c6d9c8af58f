//! Reading the workspace root out of the locate command's output.
//!
//! The command that locates a workspace prints a small JSON document whose
//! `root` member names the workspace's manifest file. The `json` crate does
//! the parsing, behind trusted wrappers; dropping the manifest file name to
//! get the root directory is this library's own, verified, logic.

use vstd::prelude::*;

use crate::fspath::spec_parse_path;
use crate::fspath::FsPath;
use crate::fspath::PathModel;

verus! {

#[verifier::external_type_specification]
#[verifier::external_body]
pub struct ExJsonValue(json::JsonValue);

/// Whether `s` parses as a JSON document.
pub uninterp spec fn json_parses(s: Seq<char>) -> bool;

/// The string member at `key` of the document written as `s`, when `s`
/// parses to an object with a string there.
pub uninterp spec fn json_string_member(s: Seq<char>, key: Seq<char>) -> Option<Seq<char>>;

/// What a parsed value holds at `key`, when that member is a string.
pub uninterp spec fn json_value_string_member(v: json::JsonValue, key: Seq<char>) -> Option<
    Seq<char>,
>;

/// Relies on json::parse: it accepts exactly the well-formed JSON texts,
/// and what it returns is a function of the text alone.
#[verifier::external_body]
fn parse_json(text: &str) -> (r: Result<json::JsonValue, String>)
    ensures
        r is Ok <==> json_parses(text@),
        r matches Ok(v) ==> forall|key: Seq<char>|
            #[trigger] json_value_string_member(v, key) == json_string_member(text@, key),
{
    json::parse(text).map_err(|e| e.to_string())
}

/// Relies on json's value model: indexing an object by `key` gives the
/// member (or null when there is none), and `as_str` gives its content
/// exactly when it is a string.
#[verifier::external_body]
fn json_member_str(v: &json::JsonValue, key: &str) -> (r: Option<String>)
    ensures
        r.deep_view() == json_value_string_member(*v, key@),
{
    v[key].as_str().map(|s| s.to_owned())
}

/// The `root` string member of the locate command's output.
pub open spec fn root_member(s: Seq<char>) -> Option<Seq<char>> {
    json_string_member(s, seq!['r', 'o', 'o', 't'])
}

/// The path written as `s`, without its final component; a path without
/// components stays as it is.
pub open spec fn parent_of(s: Seq<char>) -> PathModel {
    let p = spec_parse_path(s);
    if p.segs.len() == 0 {
        p
    } else {
        PathModel { abs: p.abs, segs: p.segs.drop_last() }
    }
}

/// Read the workspace root out of the locate command's output: the `root`
/// member names the workspace's manifest file, and the workspace root is
/// that path without the manifest file name. Fails with the parse error on
/// malformed output and with `no root` when the member is missing.
pub fn workspace_root_from_locate_output(output: &str) -> (r: Result<FsPath, String>)
    ensures
        r is Ok <==> json_parses(output@) && root_member(output@) is Some,
        r matches Ok(p) ==> (root_member(output@) matches Some(rs) && p@ == parent_of(rs)),
        json_parses(output@) && root_member(output@) is None ==> (r matches Err(m) && m@ == seq![
            'n',
            'o',
            ' ',
            'r',
            'o',
            'o',
            't',
        ]),
{
    let v = match parse_json(output) {
        Ok(v) => v,
        Err(e) => {
            return Err(e);
        },
    };
    proof {
        reveal_strlit("root");
        assert("root"@ =~= seq!['r', 'o', 'o', 't']);
    }
    let root_str = match json_member_str(&v, "root") {
        Some(s) => s,
        None => {
            let msg = "no root".to_owned();
            proof {
                reveal_strlit("no root");
                assert(msg@ =~= seq!['n', 'o', ' ', 'r', 'o', 'o', 't']);
            }
            return Err(msg);
        },
    };
    let p = FsPath::parse(root_str.as_str());
    let parent = p.parent();
    proof {
        assert(root_member(output@) matches Some(rs) && parent@ == parent_of(rs));
    }
    Ok(parent)
}

} // verus!
