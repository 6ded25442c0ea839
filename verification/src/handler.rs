//! The manifest-to-filesystem pipeline: building a typed tree out of the raw
//! manifest nodes, planning the filesystem actions that materialize it, and
//! validating the plan against what already exists under the target root.
//!
//! The pipeline itself touches no filesystem: building yields a tree, planning
//! yields the ordered actions (a directory is created before its contents),
//! and validation decides, from one existence flag per planned path, whether
//! anything collides. A caller probes the paths and performs the actions; it
//! must perform none when validation fails.

use vstd::prelude::*;

use crate::codec::decode_content;
use crate::codec::decode_spec;
use crate::codec::wrapped;
use crate::subst::subst_spec;
use crate::subst::substitute_name;
use crate::ScaffoldError;

verus! {

/// The namespace for the pipeline's operations.
pub struct Handler;

/// One node of the typed in-memory tree.
#[derive(Debug, PartialEq, Eq)]
pub enum FileHandler {
    File(File),
    Folder(Folder),
}

/// A file to be written verbatim, with its decoded content bytes.
#[derive(Debug, PartialEq, Eq)]
pub struct File {
    pub name: Vec<u8>,
    pub content: Vec<u8>,
}

/// A directory and the ordered nodes inside it.
#[derive(Debug, PartialEq, Eq)]
pub struct Folder {
    pub name: Vec<u8>,
    pub children: Vec<FileHandler>,
}

/// One raw manifest node as the manifest source hands it in: a type tag and
/// whichever of the fields were present, still in transport form.
#[derive(Debug, PartialEq, Eq)]
pub struct RawNode {
    pub node_type: Vec<u8>,
    pub name: Option<Vec<u8>>,
    pub content: Option<Vec<u8>>,
    pub children: Option<Vec<RawNode>>,
}

/// One filesystem action of the materialization plan; paths are component
/// sequences relative to the target root.
#[derive(Debug, PartialEq, Eq)]
pub enum CreateAction {
    MakeDir { path: Vec<Vec<u8>> },
    WriteFile { path: Vec<Vec<u8>>, content: Vec<u8> },
}

/// The mathematical form of one planned action.
pub enum ActionV {
    MakeDir { path: Seq<Seq<u8>> },
    WriteFile { path: Seq<Seq<u8>>, content: Seq<u8> },
}

/// The type tag of a file node: `file`.
pub open spec fn kw_file() -> Seq<u8> {
    seq![102u8, 105u8, 108u8, 101u8]
}

/// The type tag of a folder node: `folder`.
pub open spec fn kw_folder() -> Seq<u8> {
    seq![102u8, 111u8, 108u8, 100u8, 101u8, 114u8]
}

/// The project-manifest filename whose content gets the name substitution:
/// `Cargo.toml`.
pub open spec fn manifest_filename() -> Seq<u8> {
    seq![67u8, 97u8, 114u8, 103u8, 111u8, 46u8, 116u8, 111u8, 109u8, 108u8]
}

/// A raw node is well formed when its tag is one of the two recognized kinds
/// and the fields that kind requires are present, with a file's content a
/// quoted escaped string; anything else fails the build.
pub open spec fn raw_wf(raw: RawNode) -> bool
    decreases raw,
{
    if raw.node_type@ == kw_folder() {
        &&& raw.name is Some
        &&& raw.children is Some
        &&& forall|i: int|
            0 <= i < raw.children->0@.len() ==> raw_wf(#[trigger] raw.children->0@[i])
    } else if raw.node_type@ == kw_file() {
        &&& raw.name is Some
        &&& raw.content is Some
        &&& wrapped(raw.content->0@)
    } else {
        false
    }
}

pub open spec fn raws_wf(map: Seq<RawNode>) -> bool {
    forall|i: int| 0 <= i < map.len() ==> raw_wf(#[trigger] map[i])
}

/// The decoded content a built file carries: the unescaped transport bytes,
/// with the `{name}` token substituted in the one designated file only.
pub open spec fn built_content(raw_name: Seq<u8>, transport: Seq<u8>, project: Seq<u8>) -> Seq<
    u8,
> {
    if raw_name == manifest_filename() {
        subst_spec(decode_spec(transport), project)
    } else {
        decode_spec(transport)
    }
}

/// The tree node that building a well-formed raw node must produce: same kind,
/// same name, decoded (and, for the designated file, substituted) content, and
/// children built in order.
pub open spec fn node_builds(raw: RawNode, project: Seq<u8>, node: FileHandler) -> bool
    decreases raw,
{
    if raw.node_type@ == kw_folder() {
        &&& raw.name is Some
        &&& raw.children is Some
        &&& node matches FileHandler::Folder(f)
        &&& f.name@ == raw.name->0@
        &&& f.children@.len() == raw.children->0@.len()
        &&& forall|i: int|
            0 <= i < raw.children->0@.len() ==> node_builds(
                #[trigger] raw.children->0@[i],
                project,
                f.children@[i],
            )
    } else if raw.node_type@ == kw_file() {
        &&& raw.name is Some
        &&& raw.content is Some
        &&& wrapped(raw.content->0@)
        &&& node matches FileHandler::File(f)
        &&& f.name@ == raw.name->0@
        &&& f.content@ == built_content(raw.name->0@, raw.content->0@, project)
    } else {
        false
    }
}

fn is_file_tag(v: &Vec<u8>) -> (r: bool)
    ensures
        r == (v@ == kw_file()),
{
    let r = v.len() == 4 && v[0] == 102 && v[1] == 105 && v[2] == 108 && v[3] == 101;
    proof {
        if r {
            assert(v@ =~= kw_file());
        }
    }
    r
}

fn is_folder_tag(v: &Vec<u8>) -> (r: bool)
    ensures
        r == (v@ == kw_folder()),
{
    let r = v.len() == 6 && v[0] == 102 && v[1] == 111 && v[2] == 108 && v[3] == 100 && v[4] == 101
        && v[5] == 114;
    proof {
        if r {
            assert(v@ =~= kw_folder());
        }
    }
    r
}

fn is_manifest_name(v: &Vec<u8>) -> (r: bool)
    ensures
        r == (v@ == manifest_filename()),
{
    let r = v.len() == 10 && v[0] == 67 && v[1] == 97 && v[2] == 114 && v[3] == 103 && v[4] == 111
        && v[5] == 46 && v[6] == 116 && v[7] == 111 && v[8] == 109 && v[9] == 108;
    proof {
        if r {
            assert(v@ =~= manifest_filename());
        }
    }
    r
}

fn clone_bytes(src: &Vec<u8>) -> (r: Vec<u8>)
    ensures
        r@ == src@,
{
    let mut r: Vec<u8> = Vec::new();
    let mut j: usize = 0;
    while j < src.len()
        invariant
            0 <= j <= src@.len(),
            r@ == src@.take(j as int),
        decreases src@.len() - j,
    {
        r.push(src[j]);
        proof {
            assert(src@.take(j + 1) =~= src@.take(j as int).push(src@[j as int]));
        }
        j = j + 1;
    }
    proof {
        assert(src@.take(src@.len() as int) =~= src@);
    }
    r
}

/// Build the typed node for one raw node, failing on an unknown tag, a
/// missing field, or undecodable content.
fn build_node(raw: &RawNode, project: &Vec<u8>) -> (r: Result<FileHandler, ScaffoldError>)
    ensures
        (r is Ok) <==> raw_wf(*raw),
        r matches Ok(node) ==> node_builds(*raw, project@, node),
        r matches Err(e) ==> e is MalformedManifest,
    decreases *raw,
{
    if is_folder_tag(&raw.node_type) {
        let name = match &raw.name {
            Some(n) => clone_bytes(n),
            None => {
                return Err(ScaffoldError::MalformedManifest);
            },
        };
        let children = match &raw.children {
            Some(c) => c,
            None => {
                return Err(ScaffoldError::MalformedManifest);
            },
        };
        let built = match build_nodes_from(children, 0, project) {
            Ok(v) => v,
            Err(e) => {
                return Err(e);
            },
        };
        Ok(FileHandler::Folder(Folder { name, children: built }))
    } else if is_file_tag(&raw.node_type) {
        let name = match &raw.name {
            Some(n) => clone_bytes(n),
            None => {
                return Err(ScaffoldError::MalformedManifest);
            },
        };
        let transport = match &raw.content {
            Some(c) => c,
            None => {
                return Err(ScaffoldError::MalformedManifest);
            },
        };
        let decoded = match decode_content(transport) {
            Some(d) => d,
            None => {
                return Err(ScaffoldError::MalformedManifest);
            },
        };
        let content = if is_manifest_name(&name) {
            substitute_name(&decoded, project)
        } else {
            decoded
        };
        Ok(FileHandler::File(File { name, content }))
    } else {
        Err(ScaffoldError::MalformedManifest)
    }
}

/// Build, in order, the typed nodes for the raw nodes from `start` on.
fn build_nodes_from(list: &Vec<RawNode>, start: usize, project: &Vec<u8>) -> (r: Result<
    Vec<FileHandler>,
    ScaffoldError,
>)
    requires
        start <= list@.len(),
    ensures
        (r is Ok) <==> (forall|i: int| start <= i < list@.len() ==> raw_wf(#[trigger] list@[i])),
        r matches Ok(v) ==> v@.len() == list@.len() - start && forall|i: int|
            0 <= i < v@.len() ==> node_builds(list@[start + i], project@, #[trigger] v@[i]),
        r matches Err(e) ==> e is MalformedManifest,
    decreases *list, list@.len() - start,
{
    if start == list.len() {
        return Ok(Vec::new());
    }
    let node = match build_node(&list[start], project) {
        Ok(n) => n,
        Err(e) => {
            return Err(e);
        },
    };
    let mut rest = match build_nodes_from(list, start + 1, project) {
        Ok(v) => v,
        Err(e) => {
            return Err(e);
        },
    };
    rest.insert(0, node);
    Ok(rest)
}

/// The view of a path: its components as byte sequences.
pub open spec fn path_view(p: Seq<Vec<u8>>) -> Seq<Seq<u8>> {
    p.map_values(|c: Vec<u8>| c@)
}

pub open spec fn action_view(a: CreateAction) -> ActionV {
    match a {
        CreateAction::MakeDir { path } => ActionV::MakeDir { path: path_view(path@) },
        CreateAction::WriteFile { path, content } => ActionV::WriteFile {
            path: path_view(path@),
            content: content@,
        },
    }
}

pub open spec fn plan_view(p: Seq<CreateAction>) -> Seq<ActionV> {
    p.map_values(|a: CreateAction| action_view(a))
}

pub open spec fn action_path(a: ActionV) -> Seq<Seq<u8>> {
    match a {
        ActionV::MakeDir { path } => path,
        ActionV::WriteFile { path, .. } => path,
    }
}

/// The name an action creates: the last component of its path.
pub open spec fn action_name(a: ActionV) -> Seq<u8> {
    if action_path(a).len() > 0 {
        action_path(a).last()
    } else {
        Seq::empty()
    }
}

/// The actions that materialize one tree node under `prefix`, pre-order: a
/// file is one write; a folder is one directory creation followed by its
/// children's actions under the extended prefix.
pub open spec fn plan_node(node: FileHandler, prefix: Seq<Seq<u8>>) -> Seq<ActionV>
    decreases node,
{
    match node {
        FileHandler::File(f) => seq![
            ActionV::WriteFile { path: prefix.push(f.name@), content: f.content@ },
        ],
        FileHandler::Folder(f) => seq![ActionV::MakeDir { path: prefix.push(f.name@) }]
            + plan_nodes(f.children@, prefix.push(f.name@)),
    }
}

/// The actions for a sequence of sibling nodes, in their order.
pub open spec fn plan_nodes(nodes: Seq<FileHandler>, prefix: Seq<Seq<u8>>) -> Seq<ActionV>
    decreases nodes,
{
    if nodes.len() == 0 {
        Seq::empty()
    } else {
        plan_node(nodes[0], prefix) + plan_nodes(nodes.skip(1), prefix)
    }
}

fn clone_path_push(prefix: &Vec<Vec<u8>>, name: &Vec<u8>) -> (r: Vec<Vec<u8>>)
    ensures
        path_view(r@) == path_view(prefix@).push(name@),
{
    let mut r: Vec<Vec<u8>> = Vec::new();
    let mut j: usize = 0;
    while j < prefix.len()
        invariant
            0 <= j <= prefix@.len(),
            r@.len() == j,
            forall|k: int| 0 <= k < j ==> (#[trigger] r@[k])@ == prefix@[k]@,
        decreases prefix@.len() - j,
    {
        let c = clone_bytes(&prefix[j]);
        r.push(c);
        j = j + 1;
    }
    let n = clone_bytes(name);
    r.push(n);
    proof {
        assert(path_view(r@) =~= path_view(prefix@).push(name@));
    }
    r
}

/// Append to `out` the actions for the nodes from `start` on, under `prefix`.
fn plan_into(
    nodes: &Vec<FileHandler>,
    start: usize,
    prefix: &Vec<Vec<u8>>,
    out: &mut Vec<CreateAction>,
)
    requires
        start <= nodes@.len(),
    ensures
        plan_view(final(out)@) == plan_view(old(out)@) + plan_nodes(
            nodes@.skip(start as int),
            path_view(prefix@),
        ),
    decreases *nodes, nodes@.len() - start,
{
    if start == nodes.len() {
        proof {
            assert(nodes@.skip(start as int) =~= Seq::<FileHandler>::empty());
            assert(plan_view(out@) + Seq::<ActionV>::empty() =~= plan_view(out@));
        }
        return ;
    }
    let ghost suffix = nodes@.skip(start as int);
    let ghost out0 = out@;
    match &nodes[start] {
        FileHandler::File(f) => {
            let path = clone_path_push(prefix, &f.name);
            let content = clone_bytes(&f.content);
            out.push(CreateAction::WriteFile { path, content });
            proof {
                assert(plan_view(out@) =~= plan_view(out0) + plan_node(
                    nodes@[start as int],
                    path_view(prefix@),
                ));
            }
        },
        FileHandler::Folder(f) => {
            let path = clone_path_push(prefix, &f.name);
            let new_prefix = clone_path_push(prefix, &f.name);
            out.push(CreateAction::MakeDir { path });
            proof {
                assert(plan_view(out@) =~= plan_view(out0) + seq![
                    ActionV::MakeDir { path: path_view(prefix@).push(f.name@) },
                ]);
            }
            plan_into(&f.children, 0, &new_prefix, out);
            proof {
                assert(f.children@.skip(0) =~= f.children@);
                assert(plan_view(out@) =~= plan_view(out0) + plan_node(
                    nodes@[start as int],
                    path_view(prefix@),
                ));
            }
        },
    }
    let ghost out1 = out@;
    plan_into(nodes, start + 1, prefix, out);
    proof {
        assert(suffix.skip(1) =~= nodes@.skip(start + 1));
        assert(suffix[0] == nodes@[start as int]);
        assert(plan_view(out@) =~= plan_view(out0) + plan_nodes(suffix, path_view(prefix@)));
    }
}

impl Handler {
    /// Convert the raw manifest nodes into typed tree nodes, appending them
    /// in manifest order to `file_map`; children are built before their
    /// folder. On any malformed node nothing is appended.
    pub fn recursively_create_files(
        map: &Vec<RawNode>,
        file_map: &mut Vec<FileHandler>,
        name: &Vec<u8>,
    ) -> (r: Result<(), ScaffoldError>)
        ensures
            (r is Ok) <==> raws_wf(map@),
            r matches Err(e) ==> e is MalformedManifest && final(file_map)@ == old(file_map)@,
            r is Ok ==> final(file_map)@.len() == old(file_map)@.len() + map@.len() && (forall|
                i: int,
            |
                0 <= i < old(file_map)@.len() ==> final(file_map)@[i] == old(file_map)@[i]) && (
            forall|i: int|
                0 <= i < map@.len() ==> node_builds(
                    #[trigger] map@[i],
                    name@,
                    final(file_map)@[old(file_map)@.len() + i],
                )),
    {
        let mut built = match build_nodes_from(map, 0, name) {
            Ok(v) => v,
            Err(e) => {
                return Err(e);
            },
        };
        file_map.append(&mut built);
        Ok(())
    }

    /// Produce the ordered materialization plan of the tree: exactly the
    /// actions of `plan_nodes`, one creation per node, directories before
    /// their contents.
    pub fn create_files(file_map: &Vec<FileHandler>) -> (plan: Vec<CreateAction>)
        ensures
            plan_view(plan@) == plan_nodes(file_map@, Seq::empty()),
    {
        let mut out: Vec<CreateAction> = Vec::new();
        let prefix: Vec<Vec<u8>> = Vec::new();
        plan_into(file_map, 0, &prefix, &mut out);
        proof {
            assert(file_map@.skip(0) =~= file_map@);
            assert(path_view(prefix@) =~= Seq::<Seq<u8>>::empty());
            assert(plan_view(Seq::<CreateAction>::empty()) =~= Seq::<ActionV>::empty());
            assert(Seq::<ActionV>::empty() + plan_nodes(file_map@, Seq::empty()) =~= plan_nodes(
                file_map@,
                Seq::empty(),
            ));
        }
        out
    }

    /// Decide, from one existence flag per planned path, whether anything in
    /// the tree collides with the target filesystem. `Ok` exactly when no
    /// flag is set; otherwise the error names the first colliding entry and
    /// whether it is a folder, and the caller must materialize nothing.
    pub fn validate_file_map(plan: &Vec<CreateAction>, present: &Vec<bool>) -> (r: Result<
        (),
        ScaffoldError,
    >)
        requires
            present@.len() == plan@.len(),
        ensures
            (r is Ok) <==> (forall|i: int| 0 <= i < present@.len() ==> !present@[i]),
            r matches Err(e) ==> exists|i: int|
                0 <= i < present@.len() && #[trigger] present@[i] && (forall|j: int|
                    0 <= j < i ==> !present@[j]) && collision_error(e, plan_view(plan@)[i]),
    {
        let mut i: usize = 0;
        while i < plan.len()
            invariant
                0 <= i <= plan@.len(),
                present@.len() == plan@.len(),
                forall|j: int| 0 <= j < i ==> !present@[j],
            decreases plan@.len() - i,
        {
            if present[i] {
                let (path, is_folder) = match &plan[i] {
                    CreateAction::MakeDir { path } => (path, true),
                    CreateAction::WriteFile { path, .. } => (path, false),
                };
                let name = if path.len() > 0 {
                    clone_bytes(&path[path.len() - 1])
                } else {
                    Vec::new()
                };
                proof {
                    assert(name@ == action_name(plan_view(plan@)[i as int]));
                }
                return Err(ScaffoldError::AlreadyExists { name, is_folder });
            }
            i = i + 1;
        }
        Ok(())
    }
}

/// The collision error reported for a planned action: it carries the action's
/// name and whether the action would have created a folder.
pub open spec fn collision_error(e: ScaffoldError, a: ActionV) -> bool {
    &&& e matches ScaffoldError::AlreadyExists { name, is_folder }
    &&& name@ == action_name(a)
    &&& is_folder == (a is MakeDir)
}

/// A node of the tree stands at nested relative path `p` under `prefix`.
pub open spec fn node_has_path(node: FileHandler, prefix: Seq<Seq<u8>>, p: Seq<Seq<u8>>) -> bool
    decreases node,
{
    match node {
        FileHandler::File(f) => p == prefix.push(f.name@),
        FileHandler::Folder(f) => p == prefix.push(f.name@) || tree_has_path(
            f.children@,
            prefix.push(f.name@),
            p,
        ),
    }
}

/// Some node of the tree stands at nested relative path `p` under `prefix`.
pub open spec fn tree_has_path(nodes: Seq<FileHandler>, prefix: Seq<Seq<u8>>, p: Seq<Seq<u8>>) -> bool
    decreases nodes,
{
    exists|i: int| 0 <= i < nodes.len() && node_has_path(#[trigger] nodes[i], prefix, p)
}

/// Law: validation is all-or-nothing over the whole tree. The plan holds an
/// action for the nested relative path of every node of the tree, so every
/// name anywhere in the tree is probed, and when any of them is already
/// present `validate_file_map` fails and a caller that materializes only
/// after `Ok` performs zero filesystem actions.
pub proof fn lemma_plan_covers_tree(nodes: Seq<FileHandler>, prefix: Seq<Seq<u8>>, p: Seq<Seq<u8>>)
    requires
        tree_has_path(nodes, prefix, p),
    ensures
        exists|k: int|
            0 <= k < plan_nodes(nodes, prefix).len() && action_path(
                #[trigger] plan_nodes(nodes, prefix)[k],
            ) == p,
    decreases nodes,
{
    let i = choose|i: int| 0 <= i < nodes.len() && node_has_path(#[trigger] nodes[i], prefix, p);
    if i == 0 {
        lemma_plan_covers_node(nodes[0], prefix, p);
        let k = choose|k: int|
            0 <= k < plan_node(nodes[0], prefix).len() && action_path(
                #[trigger] plan_node(nodes[0], prefix)[k],
            ) == p;
        assert(plan_nodes(nodes, prefix)[k] == plan_node(nodes[0], prefix)[k]);
    } else {
        assert(nodes.skip(1)[i - 1] == nodes[i]);
        assert(tree_has_path(nodes.skip(1), prefix, p));
        lemma_plan_covers_tree(nodes.skip(1), prefix, p);
        let k = choose|k: int|
            0 <= k < plan_nodes(nodes.skip(1), prefix).len() && action_path(
                #[trigger] plan_nodes(nodes.skip(1), prefix)[k],
            ) == p;
        let off = plan_node(nodes[0], prefix).len();
        assert(plan_nodes(nodes, prefix)[off + k] == plan_nodes(nodes.skip(1), prefix)[k]);
    }
}

/// Law: the actions for one node probe its own path and, below a folder,
/// the path of every node inside it.
pub proof fn lemma_plan_covers_node(node: FileHandler, prefix: Seq<Seq<u8>>, p: Seq<Seq<u8>>)
    requires
        node_has_path(node, prefix, p),
    ensures
        exists|k: int|
            0 <= k < plan_node(node, prefix).len() && action_path(
                #[trigger] plan_node(node, prefix)[k],
            ) == p,
    decreases node,
{
    match node {
        FileHandler::File(f) => {
            assert(action_path(plan_node(node, prefix)[0]) == p);
        },
        FileHandler::Folder(f) => {
            if p == prefix.push(f.name@) {
                assert(plan_node(node, prefix)[0] == ActionV::MakeDir {
                    path: prefix.push(f.name@),
                });
                assert(action_path(plan_node(node, prefix)[0]) == p);
            } else {
                lemma_plan_covers_tree(f.children@, prefix.push(f.name@), p);
                let sub = plan_nodes(f.children@, prefix.push(f.name@));
                let k = choose|k: int|
                    0 <= k < sub.len() && action_path(#[trigger] sub[k]) == p;
                assert(plan_node(node, prefix)[1 + k] == sub[k]);
            }
        },
    }
}

/// The actions a well-formed raw manifest describes, stated directly on the
/// raw nodes: one directory per folder node followed by its children's
/// actions, one write per file node with its content decoded from transport
/// form and, for the designated file only, the name substituted.
pub open spec fn raw_plan_node(raw: RawNode, project: Seq<u8>, prefix: Seq<Seq<u8>>) -> Seq<
    ActionV,
>
    decreases raw,
    via raw_plan_node_dec
{
    if raw.node_type@ == kw_folder() && raw.children is Some {
        seq![ActionV::MakeDir { path: prefix.push(raw.name->0@) }] + raw_plan(
            raw.children->0@,
            project,
            prefix.push(raw.name->0@),
        )
    } else if raw.node_type@ == kw_folder() {
        seq![ActionV::MakeDir { path: prefix.push(raw.name->0@) }]
    } else {
        seq![
            ActionV::WriteFile {
                path: prefix.push(raw.name->0@),
                content: built_content(raw.name->0@, raw.content->0@, project),
            },
        ]
    }
}

pub open spec fn raw_plan(map: Seq<RawNode>, project: Seq<u8>, prefix: Seq<Seq<u8>>) -> Seq<
    ActionV,
>
    decreases map,
{
    if map.len() == 0 {
        Seq::empty()
    } else {
        raw_plan_node(map[0], project, prefix) + raw_plan(map.skip(1), project, prefix)
    }
}

#[via_fn]
proof fn raw_plan_node_dec(raw: RawNode, project: Seq<u8>, prefix: Seq<Seq<u8>>) {
    if raw.node_type@ == kw_folder() && raw.children is Some {
        assert(decreases_to!(raw => raw.children));
        assert(decreases_to!(raw.children => raw.children->0));
        assert(decreases_to!(raw.children->0 => raw.children->0@));
        assert(decreases_to!(raw => raw.children->0@));
    }
}

proof fn lemma_built_plan_node(raw: RawNode, project: Seq<u8>, node: FileHandler, prefix: Seq<Seq<u8>>)
    requires
        node_builds(raw, project, node),
    ensures
        plan_node(node, prefix) == raw_plan_node(raw, project, prefix),
    decreases raw,
{
    if raw.node_type@ == kw_folder() {
        let f = node->Folder_0;
        lemma_built_plan(raw.children->0@, project, f.children@, prefix.push(f.name@));
    }
}

proof fn lemma_built_plan(
    map: Seq<RawNode>,
    project: Seq<u8>,
    nodes: Seq<FileHandler>,
    prefix: Seq<Seq<u8>>,
)
    requires
        nodes.len() == map.len(),
        forall|i: int| 0 <= i < map.len() ==> node_builds(#[trigger] map[i], project, nodes[i]),
    ensures
        plan_nodes(nodes, prefix) == raw_plan(map, project, prefix),
    decreases map,
{
    if map.len() > 0 {
        lemma_built_plan_node(map[0], project, nodes[0], prefix);
        assert(map.skip(1).len() == nodes.skip(1).len());
        assert forall|i: int| 0 <= i < map.skip(1).len() implies node_builds(
            #[trigger] map.skip(1)[i],
            project,
            nodes.skip(1)[i],
        ) by {
            assert(map.skip(1)[i] == map[i + 1]);
            assert(nodes.skip(1)[i] == nodes[i + 1]);
        }
        lemma_built_plan(map.skip(1), project, nodes.skip(1), prefix);
    }
}

/// Law: the name substitution touches only the one designated file. A built
/// file under any other name carries the decoded transport text itself,
/// unchanged, even when that text contains the placeholder token.
pub proof fn lemma_subst_only_designated_file(raw: RawNode, project: Seq<u8>, node: FileHandler)
    requires
        node_builds(raw, project, node),
        raw.node_type@ == kw_file(),
        raw.name->0@ != manifest_filename(),
    ensures
        node matches FileHandler::File(f) && f.content@ == decode_spec(raw.content->0@),
{
    assert(kw_file() =~= seq![102u8, 105u8, 108u8, 101u8]);
    assert(kw_folder().len() == 6);
    assert(raw.node_type@ != kw_folder());
}

pub const SLASH: u8 = 47;

pub const DOT: u8 = 46;

/// Where the last slash-free run of the path starts; the run itself is the
/// path's final slash-free piece (empty for an empty path or one that ends
/// in a slash).
pub open spec fn component_start(p: Seq<u8>) -> int
    decreases p.len(),
{
    if p.len() == 0 {
        0
    } else if p[p.len() - 1] == SLASH {
        p.len() as int
    } else {
        component_start(p.take(p.len() - 1))
    }
}

proof fn lemma_component_start_bounds(p: Seq<u8>)
    ensures
        0 <= component_start(p) <= p.len(),
    decreases p.len(),
{
    if p.len() > 0 && p[p.len() - 1] != SLASH {
        lemma_component_start_bounds(p.take(p.len() - 1));
    }
}

/// The final name component of a path, resolved as a path's file name
/// usually is: trailing separators are skipped, as are trailing `.`
/// components; a path whose last component is `..`, or that has no component
/// at all, resolves to nothing.
pub open spec fn file_name_spec(p: Seq<u8>) -> Option<Seq<u8>>
    decreases p.len(),
    via file_name_spec_dec
{
    if p.len() == 0 {
        None
    } else if p[p.len() - 1] == SLASH {
        file_name_spec(p.drop_last())
    } else if p.subrange(component_start(p), p.len() as int) == seq![DOT] {
        file_name_spec(p.subrange(0, component_start(p)))
    } else if p.subrange(component_start(p), p.len() as int) == seq![DOT, DOT] {
        None
    } else {
        Some(p.subrange(component_start(p), p.len() as int))
    }
}

#[via_fn]
proof fn file_name_spec_dec(p: Seq<u8>) {
    if p.len() > 0 && p[p.len() - 1] != SLASH {
        lemma_component_start_bounds(p);
        if p.subrange(component_start(p), p.len() as int) == seq![DOT] {
            assert(p.subrange(component_start(p), p.len() as int).len() == 1);
            assert(component_start(p) == p.len() - 1);
            assert(p.subrange(0, component_start(p)).len() < p.len());
        }
    }
}

impl Handler {
    /// The name component of `path@.take(end)`, mirroring `file_name_spec`
    /// step by step from the right end of the bytes.
    fn file_name_from(path: &Vec<u8>, end: usize) -> (r: Option<Vec<u8>>)
        requires
            end <= path@.len(),
        ensures
            (r is Some) <==> file_name_spec(path@.take(end as int)) is Some,
            r matches Some(v) ==> v@ == file_name_spec(path@.take(end as int))->0,
        decreases end,
    {
        let ghost p = path@.take(end as int);
        if end == 0 {
            return None;
        }
        if path[end - 1] == SLASH {
            proof {
                assert(p[p.len() - 1] == SLASH);
                assert(p.drop_last() =~= path@.take(end - 1));
            }
            return Handler::file_name_from(path, end - 1);
        }
        let mut j: usize = end;
        while j > 0 && path[j - 1] != SLASH
            invariant
                0 <= j <= end <= path@.len(),
                component_start(path@.take(end as int)) == component_start(path@.take(j as int)),
            decreases j,
        {
            proof {
                let t = path@.take(j as int);
                assert(t.len() == j);
                assert(t[j - 1] == path@[j - 1]);
                assert(t.take(j - 1) =~= path@.take(j - 1));
            }
            j = j - 1;
        }
        proof {
            let t = path@.take(j as int);
            if j == 0 {
                assert(t.len() == 0);
                assert(component_start(p) == 0);
            } else {
                assert(t[j - 1] == path@[j - 1]);
                assert(component_start(p) == j);
            }
            assert(p[p.len() - 1] == path@[end - 1]);
        }
        if end - j == 1 && path[j] == DOT {
            proof {
                assert(p.subrange(j as int, end as int) =~= seq![DOT]);
                assert(p.subrange(0, j as int) =~= path@.take(j as int));
            }
            return Handler::file_name_from(path, j);
        }
        if end - j == 2 && path[j] == DOT && path[j + 1] == DOT {
            proof {
                assert(p.subrange(j as int, end as int) =~= seq![DOT, DOT]);
            }
            return None;
        }
        proof {
            let run = p.subrange(j as int, end as int);
            assert(run.len() == end - j);
            if run == seq![DOT] {
                assert(run[0] == p[j as int]);
                assert(p[j as int] == path@[j as int]);
                assert(false);
            }
            if run == seq![DOT, DOT] {
                assert(run[0] == path@[j as int]);
                assert(run[1] == path@[j + 1]);
                assert(false);
            }
        }
        let mut name: Vec<u8> = Vec::new();
        let mut k: usize = j;
        while k < end
            invariant
                j <= k <= end <= path@.len(),
                name@ == path@.subrange(j as int, k as int),
            decreases end - k,
        {
            name.push(path[k]);
            proof {
                assert(path@.subrange(j as int, k + 1) =~= path@.subrange(
                    j as int,
                    k as int,
                ).push(path@[k as int]));
            }
            k = k + 1;
        }
        proof {
            assert(p.subrange(j as int, end as int) =~= path@.subrange(j as int, end as int));
        }
        Some(name)
    }

    /// The project name a target path resolves to: the path's final name
    /// component in the filesystem sense of `file_name_spec`, or nothing
    /// when the path has none; resolving the current directory is the
    /// caller's concern.
    pub fn get_name(path: &Vec<u8>) -> (r: Option<Vec<u8>>)
        ensures
            (r is Some) <==> file_name_spec(path@) is Some,
            r matches Some(v) ==> v@ == file_name_spec(path@)->0,
    {
        proof {
            assert(path@.take(path@.len() as int) =~= path@);
        }
        Handler::file_name_from(path, path.len())
    }

    /// The orchestrator's pure core: build the typed tree for the raw
    /// manifest and plan its materialization. `Ok` exactly when every raw
    /// node is well formed, and then the plan is exactly what the manifest
    /// describes; the caller validates the plan's paths before performing it.
    pub fn create_ruxt_app(map: &Vec<RawNode>, name: &Vec<u8>) -> (r: Result<
        Vec<CreateAction>,
        ScaffoldError,
    >)
        ensures
            (r is Ok) <==> raws_wf(map@),
            r matches Ok(plan) ==> plan_view(plan@) == raw_plan(map@, name@, Seq::empty()),
            r matches Err(e) ==> e is MalformedManifest,
    {
        let mut tree: Vec<FileHandler> = Vec::new();
        match Handler::recursively_create_files(map, &mut tree, name) {
            Ok(u) => u,
            Err(e) => {
                return Err(e);
            },
        };
        let plan = Handler::create_files(&tree);
        proof {
            lemma_built_plan(map@, name@, tree@, Seq::empty());
        }
        Ok(plan)
    }
}

} // verus!
