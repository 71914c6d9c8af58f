//! Workspace deduplication and patch-path rewriting.
//!
//! Patch path values are processed in document order. A path that lies
//! inside an already-known workspace reuses it; otherwise the locator is
//! asked for the owning workspace root, which is added to the running list.
//! Either way the value is rewritten to `<remote>/<path relative to root>`,
//! where `<remote>` is `../<workspace name>`.

use vstd::prelude::*;

use crate::fspath::display_of;
use crate::fspath::lemma_contains_transitive;
use crate::fspath::path_contains;
use crate::fspath::spec_parse_path;
use crate::fspath::views_of;
use crate::fspath::FsPath;
use crate::fspath::PathModel;

verus! {

/// One distinct local workspace that has to be transferred to the remote
/// host.
#[derive(Debug)]
pub struct PatchProject {
    /// The workspace's directory base name; also its remote folder name.
    pub name: String,
    /// The local workspace root.
    pub local_path: FsPath,
    /// Where the workspace lands on the remote host: `../<name>`.
    pub remote_path: FsPath,
}

impl PatchProject {
    pub fn new(name: String, path: FsPath, remote_path: FsPath) -> (r: Self)
        ensures
            r.name == name,
            r.local_path == path,
            r.remote_path == remote_path,
    {
        PatchProject { name, local_path: path, remote_path }
    }
}

/// Why preparing the patches failed.
#[derive(Debug)]
pub enum PatchError {
    /// The manifest text is not a well-formed document.
    ManifestParse(String),
    /// The locator could not find a workspace for this patch path.
    WorkspaceNotFound { path: String, message: String },
    /// The locator answered with a root that does not contain the path,
    /// or with a root that has no final component to name the workspace by.
    InvalidWorkspaceRoot { path: String, root: String },
}

/// The value under an optional patch path entry; meaningful only when the
/// entry has one.
pub open spec fn opt_value(o: Option<Seq<char>>) -> Seq<char> {
    match o {
        Option::Some(s) => s,
        Option::None => Seq::empty(),
    }
}

/// The string values of a sequence of optional strings.
pub open spec fn deep_opts(v: Seq<Option<String>>) -> Seq<Option<Seq<char>>> {
    v.map_values(
        |o: Option<String>|
            match o {
                Option::Some(s) => Option::Some(s@),
                Option::None => Option::None,
            },
    )
}

/// A well-formed workspace entry: the root has a final component, the name
/// is that component, and the remote path is `../<name>`.
pub open spec fn project_wf(w: PatchProject) -> bool {
    &&& w.local_path@.segs.len() > 0
    &&& w.name@ == w.local_path@.segs.last()
    &&& !w.remote_path@.abs
    &&& w.remote_path@.segs == seq![seq!['.', '.'], w.name@]
}

/// A well-formed workspace list: every entry is well-formed and no earlier
/// root contains a later one, so no workspace is recorded twice.
pub open spec fn workspaces_wf(ws: Seq<PatchProject>) -> bool {
    &&& forall|i: int| 0 <= i < ws.len() ==> project_wf(#[trigger] ws[i])
    &&& forall|i: int, j: int|
        0 <= i < j < ws.len() ==> !path_contains(
            (#[trigger] ws[i]).local_path@,
            (#[trigger] ws[j]).local_path@,
        )
}

/// `i` is the first workspace in `ws` whose root contains `p`.
pub open spec fn first_match(ws: Seq<PatchProject>, p: PathModel, i: int) -> bool {
    &&& 0 <= i < ws.len()
    &&& path_contains(ws[i].local_path@, p)
    &&& forall|j: int| 0 <= j < i ==> !path_contains((#[trigger] ws[j]).local_path@, p)
}

/// The text a path rewritten into workspace `w` gets: the remote path of
/// `w` followed by the path's components below the root of `w`.
pub open spec fn rewritten_for(w: PatchProject, p: PathModel) -> Seq<char> {
    display_of(
        PathModel { abs: false, segs: w.remote_path@.segs + p.segs.skip(w.local_path@.segs.len() as int) },
    )
}

/// How one rewritten value relates to its original: an entry without a path
/// value stays without one, and a path value is rewritten into the first
/// workspace of `ws` that contains it.
pub open spec fn entry_rewritten(
    orig_k: Option<Seq<char>>,
    out_k: Option<Seq<char>>,
    ws: Seq<PatchProject>,
) -> bool {
    &&& out_k is None <==> orig_k is None
    &&& orig_k is Some ==> exists|i: int|
        first_match(ws, spec_parse_path(opt_value(orig_k)), i) && out_k == Option::Some(
            rewritten_for(ws[i], spec_parse_path(opt_value(orig_k))),
        )
}

/// How the rewritten values relate to the originals, entry by entry.
pub open spec fn values_rewritten(
    orig: Seq<Option<Seq<char>>>,
    out: Seq<Option<Seq<char>>>,
    ws: Seq<PatchProject>,
) -> bool {
    &&& out.len() == orig.len()
    &&& forall|k: int| 0 <= k < orig.len() ==> entry_rewritten(#[trigger] orig[k], out[k], ws)
}

/// `w`'s root contains the parse of some path value of `orig`.
pub open spec fn ws_has_source(w: PatchProject, orig: Seq<Option<Seq<char>>>) -> bool {
    exists|k: int|
        0 <= k < orig.len() && (#[trigger] orig[k]) is Some && path_contains(
            w.local_path@,
            spec_parse_path(opt_value(orig[k])),
        )
}

/// Workspaces come only from path entries.
pub open spec fn workspaces_from(ws: Seq<PatchProject>, orig: Seq<Option<Seq<char>>>) -> bool {
    forall|i: int| 0 <= i < ws.len() ==> ws_has_source(#[trigger] ws[i], orig)
}

/// `w`'s root is an answer the locator can give.
pub open spec fn root_located<F: Fn(&FsPath) -> Result<FsPath, String>>(
    locate: F,
    w: PatchProject,
) -> bool {
    exists|a: FsPath| #[trigger] call_ensures(locate, (&a,), Result::Ok(w.local_path))
}

/// Every workspace root in `ws` is an answer the locator can give.
pub open spec fn roots_located<F: Fn(&FsPath) -> Result<FsPath, String>>(
    locate: F,
    ws: Seq<PatchProject>,
) -> bool {
    forall|i: int| 0 <= i < ws.len() ==> root_located(locate, #[trigger] ws[i])
}

/// The locator accepts every path.
pub open spec fn locator_callable<F: Fn(&FsPath) -> Result<FsPath, String>>(locate: F) -> bool {
    forall|a: FsPath| #[trigger] call_requires(locate, (&a,))
}

/// Every answer the locator can give is a non-empty root that contains the
/// asked path.
pub open spec fn locator_reliable<F: Fn(&FsPath) -> Result<FsPath, String>>(locate: F) -> bool {
    forall|a: FsPath, res: Result<FsPath, String>| #[trigger] call_ensures(locate, (&a,), res)
        ==> (res matches Ok(root) && root@.segs.len() > 0 && path_contains(root@, a@))
}

/// Every answer the locator can give for the parse of one of `orig`'s own
/// path values is a non-empty root that contains the asked path. Unlike
/// `locator_reliable` this asks nothing of the locator on other paths, so
/// an ordinary locator meets it.
pub open spec fn locator_reliable_for<F: Fn(&FsPath) -> Result<FsPath, String>>(
    locate: F,
    orig: Seq<Option<Seq<char>>>,
) -> bool {
    forall|k: int, a: FsPath, res: Result<FsPath, String>|
        #![trigger orig[k], call_ensures(locate, (&a,), res)]
        0 <= k < orig.len() && orig[k] is Some && a@ == spec_parse_path(opt_value(orig[k]))
            && call_ensures(locate, (&a,), res) ==> (res matches Ok(root) && root@.segs.len() > 0
            && path_contains(root@, a@))
}

/// Some entry whose path lies in `wi` comes before some entry whose path
/// lies in `wj`.
pub open spec fn discovered_before(
    wi: PatchProject,
    wj: PatchProject,
    orig: Seq<Option<Seq<char>>>,
) -> bool {
    exists|ki: int, kj: int|
        0 <= ki < kj < orig.len() && (#[trigger] orig[ki]) is Some && (#[trigger] orig[kj]) is Some
            && path_contains(wi.local_path@, spec_parse_path(opt_value(orig[ki])))
            && path_contains(wj.local_path@, spec_parse_path(opt_value(orig[kj])))
}

/// The workspace list is in first-discovery order: each later workspace
/// was brought in by an entry that comes after an entry lying in each
/// earlier workspace.
pub open spec fn workspaces_in_discovery_order(
    ws: Seq<PatchProject>,
    orig: Seq<Option<Seq<char>>>,
) -> bool {
    forall|i: int, j: int|
        0 <= i < j < ws.len() ==> discovered_before(#[trigger] ws[i], #[trigger] ws[j], orig)
}

/// A `WorkspaceNotFound` error is justified: `path` is one of `orig`'s own
/// path values, and the locator can answer its parse with exactly this
/// failure message.
pub open spec fn locate_failure_justified<F: Fn(&FsPath) -> Result<FsPath, String>>(
    locate: F,
    orig: Seq<Option<Seq<char>>>,
    path: String,
    message: String,
) -> bool {
    exists|k: int, a: FsPath|
        #![trigger orig[k], call_ensures(locate, (&a,), Result::<FsPath, String>::Err(message))]
        0 <= k < orig.len() && orig[k] == Option::Some(path@) && a@ == spec_parse_path(path@)
            && call_ensures(locate, (&a,), Result::<FsPath, String>::Err(message))
}

/// An `InvalidWorkspaceRoot` error is justified: `path` is one of `orig`'s
/// own path values, and the locator can answer its parse with a root that
/// displays as `root` and is empty or does not contain the path.
pub open spec fn invalid_root_justified<F: Fn(&FsPath) -> Result<FsPath, String>>(
    locate: F,
    orig: Seq<Option<Seq<char>>>,
    path: String,
    root: String,
) -> bool {
    exists|k: int, a: FsPath, rt: FsPath|
        #![trigger orig[k], call_ensures(locate, (&a,), Result::<FsPath, String>::Ok(rt))]
        0 <= k < orig.len() && orig[k] == Option::Some(path@) && a@ == spec_parse_path(path@)
            && call_ensures(locate, (&a,), Result::<FsPath, String>::Ok(rt)) && root@ == display_of(
            rt@,
        ) && !(rt@.segs.len() > 0 && path_contains(rt@, a@))
}

/// In a well-formed workspace list no root occurs twice: each workspace is
/// transferred exactly once.
pub proof fn lemma_no_duplicate_workspaces(ws: Seq<PatchProject>)
    requires
        workspaces_wf(ws),
    ensures
        forall|i: int, j: int|
            0 <= i < j < ws.len() ==> (#[trigger] ws[i]).local_path@ != (#[trigger] ws[j]).local_path@,
{
    assert forall|i: int, j: int| 0 <= i < j < ws.len() implies (#[trigger] ws[i]).local_path@
        != (#[trigger] ws[j]).local_path@ by {
        if ws[i].local_path@ == ws[j].local_path@ {
            assert(ws[i].local_path@.segs.is_prefix_of(ws[j].local_path@.segs));
            assert(path_contains(ws[i].local_path@, ws[j].local_path@));
        }
    }
}

/// At most one workspace is the first containing one.
pub proof fn lemma_first_match_unique(ws: Seq<PatchProject>, p: PathModel, i: int, j: int)
    requires
        first_match(ws, p, i),
        first_match(ws, p, j),
    ensures
        i == j,
{
}

proof fn lemma_entry_rewritten_push_ws(
    o: Option<Seq<char>>,
    u: Option<Seq<char>>,
    ws: Seq<PatchProject>,
    w: PatchProject,
)
    requires
        entry_rewritten(o, u, ws),
    ensures
        entry_rewritten(o, u, ws.push(w)),
{
    if o is Some {
        let pp = spec_parse_path(opt_value(o));
        let i = choose|i: int| first_match(ws, pp, i) && u == Option::Some(rewritten_for(ws[i], pp));
        assert(ws.push(w)[i] == ws[i]);
        assert forall|j: int| 0 <= j < i implies !path_contains(
            (#[trigger] ws.push(w)[j]).local_path@,
            pp,
        ) by {
            assert(ws.push(w)[j] == ws[j]);
        }
        assert(first_match(ws.push(w), pp, i) && u == Option::Some(rewritten_for(ws.push(w)[i], pp)));
    }
}

proof fn lemma_values_rewritten_extend(
    orig: Seq<Option<Seq<char>>>,
    out: Seq<Option<Seq<char>>>,
    ws: Seq<PatchProject>,
    o_k: Option<Seq<char>>,
    u_k: Option<Seq<char>>,
)
    requires
        values_rewritten(orig, out, ws),
        entry_rewritten(o_k, u_k, ws),
    ensures
        values_rewritten(orig.push(o_k), out.push(u_k), ws),
{
    let orig2 = orig.push(o_k);
    let out2 = out.push(u_k);
    assert forall|k: int| 0 <= k < orig2.len() implies entry_rewritten(
        #[trigger] orig2[k],
        out2[k],
        ws,
    ) by {
        if k < orig.len() {
            assert(orig2[k] == orig[k]);
            assert(out2[k] == out[k]);
        } else {
            assert(orig2[k] == o_k);
            assert(out2[k] == u_k);
        }
    }
}

proof fn lemma_values_rewritten_push_ws(
    orig: Seq<Option<Seq<char>>>,
    out: Seq<Option<Seq<char>>>,
    ws: Seq<PatchProject>,
    w: PatchProject,
)
    requires
        values_rewritten(orig, out, ws),
    ensures
        values_rewritten(orig, out, ws.push(w)),
{
    assert forall|k: int| 0 <= k < orig.len() implies entry_rewritten(
        #[trigger] orig[k],
        out[k],
        ws.push(w),
    ) by {
        assert(entry_rewritten(orig[k], out[k], ws));
        lemma_entry_rewritten_push_ws(orig[k], out[k], ws, w);
    }
}

proof fn lemma_ws_has_source_extend(
    w: PatchProject,
    orig: Seq<Option<Seq<char>>>,
    o_k: Option<Seq<char>>,
)
    requires
        ws_has_source(w, orig),
    ensures
        ws_has_source(w, orig.push(o_k)),
{
    let orig2 = orig.push(o_k);
    let k = choose|k: int|
        0 <= k < orig.len() && (#[trigger] orig[k]) is Some && path_contains(
            w.local_path@,
            spec_parse_path(opt_value(orig[k])),
        );
    assert(orig2[k] == orig[k]);
    assert(0 <= k < orig2.len() && orig2[k] is Some && path_contains(
        w.local_path@,
        spec_parse_path(opt_value(orig2[k])),
    ));
}

proof fn lemma_workspaces_from_extend(
    ws: Seq<PatchProject>,
    orig: Seq<Option<Seq<char>>>,
    o_k: Option<Seq<char>>,
)
    requires
        workspaces_from(ws, orig),
    ensures
        workspaces_from(ws, orig.push(o_k)),
{
    assert forall|i: int| 0 <= i < ws.len() implies ws_has_source(#[trigger] ws[i], orig.push(o_k)) by {
        assert(ws_has_source(ws[i], orig));
        lemma_ws_has_source_extend(ws[i], orig, o_k);
    }
}

proof fn lemma_discovered_before_extend(
    wi: PatchProject,
    wj: PatchProject,
    orig: Seq<Option<Seq<char>>>,
    o_k: Option<Seq<char>>,
)
    requires
        discovered_before(wi, wj, orig),
    ensures
        discovered_before(wi, wj, orig.push(o_k)),
{
    let orig2 = orig.push(o_k);
    let (ki, kj) = choose|ki: int, kj: int|
        0 <= ki < kj < orig.len() && (#[trigger] orig[ki]) is Some && (#[trigger] orig[kj]) is Some
            && path_contains(wi.local_path@, spec_parse_path(opt_value(orig[ki])))
            && path_contains(wj.local_path@, spec_parse_path(opt_value(orig[kj])));
    assert(orig2[ki] == orig[ki]);
    assert(orig2[kj] == orig[kj]);
    assert(0 <= ki < kj < orig2.len() && orig2[ki] is Some && orig2[kj] is Some && path_contains(
        wi.local_path@,
        spec_parse_path(opt_value(orig2[ki])),
    ) && path_contains(wj.local_path@, spec_parse_path(opt_value(orig2[kj]))));
}

proof fn lemma_discovery_order_extend(
    ws: Seq<PatchProject>,
    orig: Seq<Option<Seq<char>>>,
    o_k: Option<Seq<char>>,
)
    requires
        workspaces_in_discovery_order(ws, orig),
    ensures
        workspaces_in_discovery_order(ws, orig.push(o_k)),
{
    assert forall|i: int, j: int| 0 <= i < j < ws.len() implies discovered_before(
        #[trigger] ws[i],
        #[trigger] ws[j],
        orig.push(o_k),
    ) by {
        assert(discovered_before(ws[i], ws[j], orig));
        lemma_discovered_before_extend(ws[i], ws[j], orig, o_k);
    }
}

proof fn lemma_deep_opts_push(q: Seq<Option<String>>, x: Option<String>)
    ensures
        deep_opts(q.push(x)) =~= deep_opts(q).push(
            match x {
                Option::Some(s) => Option::Some(s@),
                Option::None => Option::None,
            },
        ),
{
    assert forall|i: int| 0 <= i < q.len() implies deep_opts(q.push(x))[i] == deep_opts(q)[i] by {
        assert(q.push(x)[i] == q[i]);
    }
}

proof fn lemma_deep_opts_is_deep_view(v: &Vec<Option<String>>)
    ensures
        v.deep_view() =~= deep_opts(v@),
        v.deep_view().len() == v@.len(),
        forall|i: int| 0 <= i < v@.len() ==> #[trigger] v.deep_view()[i] == deep_opts(v@)[i],
{
    assert forall|i: int| 0 <= i < v@.len() implies #[trigger] v.deep_view()[i] == deep_opts(v@)[i] by {
    }
}

/// Find the first known workspace whose root contains `p`.
fn find_known(ws: &Vec<PatchProject>, p: &FsPath) -> (r: Option<usize>)
    ensures
        r matches Some(i) ==> first_match(ws@, p@, i as int),
        r is None ==> forall|j: int| 0 <= j < ws@.len() ==> !path_contains(
            (#[trigger] ws@[j]).local_path@,
            p@,
        ),
{
    let mut i: usize = 0;
    while i < ws.len()
        invariant
            0 <= i <= ws@.len(),
            forall|j: int| 0 <= j < i ==> !path_contains((#[trigger] ws@[j]).local_path@, p@),
        decreases ws@.len() - i,
    {
        if p.starts_with(&ws[i].local_path) {
            return Some(i);
        }
        i += 1;
    }
    None
}

/// Process the extracted patch path values in order: rewrite each one into
/// the first workspace containing it, asking the locator for the root of
/// paths that lie in no workspace seen so far. Entries without a path value
/// are left alone. Returns the rewritten values and the workspaces to
/// transfer, in first-discovery order.
#[verifier::loop_isolation(false)]
#[verifier::rlimit(100)]
pub fn rewrite_patch_values<F: Fn(&FsPath) -> Result<FsPath, String>>(
    values: &Vec<Option<String>>,
    locate_workspace: F,
) -> (r: Result<(Vec<Option<String>>, Vec<PatchProject>), PatchError>)
    requires
        locator_callable(locate_workspace),
    ensures
        r matches Ok(ok) ==> {
            &&& values_rewritten(values.deep_view(), ok.0.deep_view(), ok.1@)
            &&& workspaces_wf(ok.1@)
            &&& workspaces_from(ok.1@, values.deep_view())
            &&& workspaces_in_discovery_order(ok.1@, values.deep_view())
            &&& roots_located(locate_workspace, ok.1@)
        },
        locator_reliable(locate_workspace) ==> r is Ok,
        locator_reliable_for(locate_workspace, values.deep_view()) ==> r is Ok,
        (forall|k: int| 0 <= k < values.deep_view().len() ==> (#[trigger] values.deep_view()[k]) is None)
            ==> (r matches Ok(ok) && ok.1@.len() == 0),
        r is Err ==> exists|k: int|
            0 <= k < values.deep_view().len() && (#[trigger] values.deep_view()[k]) is Some,
        r matches Err(e) ==> !(e is ManifestParse),
        r matches Err(e) ==> (e matches PatchError::WorkspaceNotFound { path, message }
            ==> locate_failure_justified(locate_workspace, values.deep_view(), path, message)),
        r matches Err(e) ==> (e matches PatchError::InvalidWorkspaceRoot { path, root }
            ==> invalid_root_justified(locate_workspace, values.deep_view(), path, root)),
{
    proof {
        lemma_deep_opts_is_deep_view(values);
    }
    let ghost dv = values.deep_view();
    let mut out: Vec<Option<String>> = Vec::new();
    let mut ws: Vec<PatchProject> = Vec::new();
    let mut k: usize = 0;
    proof {
        lemma_deep_opts_is_deep_view(&out);
        assert(dv.take(0) =~= Seq::<Option<Seq<char>>>::empty());
        assert(out.deep_view() =~= Seq::<Option<Seq<char>>>::empty());
    }
    while k < values.len()
        invariant
            0 <= k <= values@.len(),
            dv.len() == values@.len(),
            out.deep_view() == deep_opts(out@),
            out@.len() == k,
            values_rewritten(dv.take(k as int), deep_opts(out@), ws@),
            workspaces_wf(ws@),
            workspaces_from(ws@, dv.take(k as int)),
            workspaces_in_discovery_order(ws@, dv.take(k as int)),
            roots_located(locate_workspace, ws@),
        decreases values@.len() - k,
    {
        proof {
            assert(dv.take(k + 1) =~= dv.take(k as int).push(dv[k as int]));
            lemma_workspaces_from_extend(ws@, dv.take(k as int), dv[k as int]);
            lemma_discovery_order_extend(ws@, dv.take(k as int), dv[k as int]);
        }
        let ghost prev_out = out@;
        let entry = &values[k];
        match entry {
            None => {
                out.push(None);
                proof {
                    assert(dv[k as int] is None);
                    lemma_deep_opts_push(prev_out, Option::<String>::None);
                    assert(out@ == prev_out.push(Option::<String>::None));
                    assert(entry_rewritten(dv[k as int], Option::<Seq<char>>::None, ws@));
                    lemma_values_rewritten_extend(
                        dv.take(k as int),
                        deep_opts(prev_out),
                        ws@,
                        dv[k as int],
                        Option::<Seq<char>>::None,
                    );
                    lemma_deep_opts_is_deep_view(&out);
                }
            },
            Some(p_str) => {
                proof {
                    assert(dv[k as int] == Option::Some(p_str@));
                    assert(opt_value(dv[k as int]) == p_str@);
                }
                let p = FsPath::parse(p_str.as_str());
                let widx: usize;
                match find_known(&ws, &p) {
                    Some(i) => {
                        widx = i;
                    },
                    None => {
                        let res = locate_workspace(&p);
                        match res {
                            Err(m) => {
                                let path_field = p_str.clone();
                                proof {
                                    assert(call_ensures(locate_workspace, (&p,), Result::<FsPath, String>::Err(m)));
                                    assert(p@ == spec_parse_path(p_str@));
                                    assert(!(dv[k as int] is None));
                                    assert(values.deep_view()[k as int] == Option::Some(path_field@));
                                    assert(locate_failure_justified(
                                        locate_workspace,
                                        values.deep_view(),
                                        path_field,
                                        m,
                                    ));
                                }
                                return Err(PatchError::WorkspaceNotFound { path: path_field, message: m });
                            },
                            Ok(root) => {
                                let has_name = root.segments.len() > 0;
                                if !has_name || !p.starts_with(&root) {
                                    let root_text = root.to_path_string();
                                    let path_field = p_str.clone();
                                    proof {
                                        assert(call_ensures(locate_workspace, (&p,), Result::<FsPath, String>::Ok(root)));
                                        assert(p@ == spec_parse_path(p_str@));
                                        assert(root_text@ == display_of(root@));
                                        assert(!(root@.segs.len() > 0 && path_contains(root@, p@)));
                                        assert(!(dv[k as int] is None));
                                        assert(values.deep_view()[k as int] == Option::Some(path_field@));
                                        assert(invalid_root_justified(
                                            locate_workspace,
                                            values.deep_view(),
                                            path_field,
                                            root_text,
                                        ));
                                    }
                                    return Err(PatchError::InvalidWorkspaceRoot {
                                        path: path_field,
                                        root: root_text,
                                    });
                                }
                                let name = root.segments[root.segments.len() - 1].clone();
                                proof {
                                    assert(name@ == root@.segs.last());
                                }
                                let mut rsegs: Vec<String> = Vec::new();
                                let dotdot = "..".to_owned();
                                proof {
                                    reveal_strlit("..");
                                    assert(dotdot@ =~= seq!['.', '.']);
                                }
                                let ghost r0 = rsegs@;
                                rsegs.push(dotdot);
                                let ghost r1 = rsegs@;
                                rsegs.push(name.clone());
                                proof {
                                    crate::fspath::lemma_views_of_push(r0, rsegs@[0]);
                                    crate::fspath::lemma_views_of_push(r1, rsegs@[1]);
                                    assert(views_of(rsegs@) =~= seq![seq!['.', '.'], name@]);
                                }
                                let remote = FsPath { absolute: false, segments: rsegs };
                                let ghost ws_old = ws@;
                                proof {
                                    assert forall|i: int| 0 <= i < ws_old.len() implies !path_contains(
                                        (#[trigger] ws_old[i]).local_path@,
                                        root@,
                                    ) by {
                                        if path_contains(ws_old[i].local_path@, root@) {
                                            lemma_contains_transitive(
                                                ws_old[i].local_path@,
                                                root@,
                                                p@,
                                            );
                                        }
                                    }
                                }
                                let proj = PatchProject::new(name, root, remote);
                                proof {
                                    assert(project_wf(proj));
                                    assert(call_ensures(locate_workspace, (&p,), Result::<FsPath, String>::Ok(proj.local_path)));
                                }
                                ws.push(proj);
                                widx = ws.len() - 1;
                                proof {
                                    assert(ws@ == ws_old.push(proj));
                                    assert forall|i: int| 0 <= i < ws@.len() implies project_wf(
                                        #[trigger] ws@[i],
                                    ) by {
                                        if i < ws_old.len() {
                                            assert(ws@[i] == ws_old[i]);
                                        } else {
                                            assert(ws@[i] == proj);
                                        }
                                    }
                                    assert forall|i: int, j: int| 0 <= i < j < ws@.len() implies !path_contains(
                                        (#[trigger] ws@[i]).local_path@,
                                        (#[trigger] ws@[j]).local_path@,
                                    ) by {
                                        assert(ws@[i] == ws_old[i]);
                                        if j < ws_old.len() {
                                            assert(ws@[j] == ws_old[j]);
                                        } else {
                                            assert(ws@[j] == proj);
                                        }
                                    }
                                    lemma_values_rewritten_push_ws(
                                        dv.take(k as int),
                                        deep_opts(prev_out),
                                        ws_old,
                                        proj,
                                    );
                                    let dvk1 = dv.take(k + 1);
                                    assert forall|i: int| 0 <= i < ws@.len() implies ws_has_source(
                                        #[trigger] ws@[i],
                                        dvk1,
                                    ) by {
                                        if i < ws_old.len() {
                                            assert(ws@[i] == ws_old[i]);
                                            assert(ws_has_source(ws_old[i], dv.take(k as int)));
                                            lemma_ws_has_source_extend(
                                                ws_old[i],
                                                dv.take(k as int),
                                                dv[k as int],
                                            );
                                            assert(dv.take(k as int).push(dv[k as int]) == dvk1);
                                        } else {
                                            assert(ws@[i] == proj);
                                            assert(dvk1[k as int] == dv[k as int]);
                                            assert(0 <= k < dvk1.len() && dvk1[k as int] is Some
                                                && path_contains(
                                                proj.local_path@,
                                                spec_parse_path(opt_value(dvk1[k as int])),
                                            ));
                                        }
                                    }
                                    assert(workspaces_from(ws@, dv.take(k + 1)));
                                    assert forall|i: int, j: int| 0 <= i < j < ws@.len() implies discovered_before(
                                        #[trigger] ws@[i],
                                        #[trigger] ws@[j],
                                        dvk1,
                                    ) by {
                                        assert(ws@[i] == ws_old[i]);
                                        if j < ws_old.len() {
                                            assert(ws@[j] == ws_old[j]);
                                            assert(discovered_before(ws_old[i], ws_old[j], dvk1));
                                        } else {
                                            assert(ws@[j] == proj);
                                            assert(ws_has_source(ws_old[i], dv.take(k as int)));
                                            let ki = choose|ki: int|
                                                0 <= ki < dv.take(k as int).len() && (
                                                #[trigger] dv.take(k as int)[ki]) is Some
                                                    && path_contains(
                                                    ws_old[i].local_path@,
                                                    spec_parse_path(opt_value(dv.take(k as int)[ki])),
                                                );
                                            assert(dvk1[ki] == dv.take(k as int)[ki]);
                                            assert(dvk1[k as int] == dv[k as int]);
                                            assert(0 <= ki < k < dvk1.len() && dvk1[ki] is Some
                                                && dvk1[k as int] is Some && path_contains(
                                                ws@[i].local_path@,
                                                spec_parse_path(opt_value(dvk1[ki])),
                                            ) && path_contains(
                                                ws@[j].local_path@,
                                                spec_parse_path(opt_value(dvk1[k as int])),
                                            ));
                                        }
                                    }
                                    assert(workspaces_in_discovery_order(ws@, dv.take(k + 1)));
                                    assert forall|i: int| 0 <= i < ws@.len() implies root_located(
                                        locate_workspace,
                                        #[trigger] ws@[i],
                                    ) by {
                                        if i < ws_old.len() {
                                            assert(ws@[i] == ws_old[i]);
                                            assert(root_located(locate_workspace, ws_old[i]));
                                        } else {
                                            assert(ws@[i] == proj);
                                            assert(call_ensures(locate_workspace, (&p,), Result::<FsPath, String>::Ok(proj.local_path)));
                                            assert(root_located(locate_workspace, proj));
                                        }
                                    }
                                    assert forall|j: int| 0 <= j < ws@.len() - 1 implies !path_contains(
                                        (#[trigger] ws@[j]).local_path@,
                                        p@,
                                    ) by {
                                        assert(ws@[j] == ws_old[j]);
                                    }
                                    assert(ws@[widx as int] == proj);
                                    assert(path_contains(ws@[widx as int].local_path@, p@));
                                    assert(first_match(ws@, p@, widx as int));
                                    assert(spec_parse_path(opt_value(dv[k as int])) == p@);
                                }
                            },
                        }
                    },
                }
                assert(first_match(ws@, p@, widx as int));
                let rel = p.strip_prefix(&ws[widx].local_path);
                let newp = ws[widx].remote_path.join(&rel);
                let news = newp.to_path_string();
                proof {
                    assert(project_wf(ws@[widx as int]));
                    assert(ws@[widx as int].remote_path@.abs == false);
                    assert(newp@ == PathModel {
                        abs: false,
                        segs: ws@[widx as int].remote_path@.segs + p@.segs.skip(
                            ws@[widx as int].local_path@.segs.len() as int,
                        ),
                    });
                    assert(news@ == rewritten_for(ws@[widx as int], p@));
                }
                out.push(Some(news));
                proof {
                    lemma_deep_opts_push(prev_out, Option::Some(news));
                    assert(out@ == prev_out.push(Option::Some(news)));
                    assert(opt_value(dv[k as int]) == p_str@);
                    assert(first_match(ws@, spec_parse_path(opt_value(dv[k as int])), widx as int)
                        && Option::Some(news@) == Option::Some(rewritten_for(
                        ws@[widx as int],
                        spec_parse_path(opt_value(dv[k as int])),
                    )));
                    assert(entry_rewritten(dv[k as int], Option::Some(news@), ws@));
                    lemma_values_rewritten_extend(
                        dv.take(k as int),
                        deep_opts(prev_out),
                        ws@,
                        dv[k as int],
                        Option::Some(news@),
                    );
                    lemma_deep_opts_is_deep_view(&out);
                }
            },
        }
        k += 1;
    }
    proof {
        assert(dv.take(values@.len() as int) =~= dv);
        lemma_deep_opts_is_deep_view(&out);
        assert(workspaces_from(ws@, dv));
        assert(workspaces_in_discovery_order(ws@, dv));
        assert((forall|kk: int| 0 <= kk < dv.len() ==> (#[trigger] dv[kk]) is None) ==> ws@.len()
            == 0) by {
            if (forall|kk: int| 0 <= kk < dv.len() ==> (#[trigger] dv[kk]) is None) && ws@.len()
                > 0 {
                assert(ws_has_source(ws@[0], dv));
                let kk = choose|kk: int|
                    0 <= kk < dv.len() && (#[trigger] dv[kk]) is Some && path_contains(
                        ws@[0].local_path@,
                        spec_parse_path(opt_value(dv[kk])),
                    );
                assert(dv[kk] is None);
                assert(false);
            }
        }
    }
    Ok((out, ws))
}

} // verus!
