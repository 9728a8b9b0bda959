//! The evaluation-descriptor builder and the proved properties of its output.
//!
//! Given an evaluation request and the chunk being produced, the builder
//! computes the runtime-facing descriptor needed to execute the request's
//! entry points: the server paths of the script and asset chunks that must be
//! loaded first, the module ids to invoke, and the optional server path of
//! the chunk-list manifest.

use vstd::prelude::*;

use crate::chunk::{
    Chunk, ChunkGroup, ChunkKind, ChunkingContext, EcmascriptChunkPlaceable, ModuleId,
};
use crate::paths::{get_path_to, lemma_root_relative_injective, path_in_root, root_relative};

verus! {

/// A request to evaluate entry modules once all chunks of a chunk group are
/// ready.
pub struct EcmascriptChunkEvaluate {
    /// Entries that will be executed, in that order, once all chunks are
    /// ready. These entries must be included in the chunk's main entries so
    /// that they are available; the caller enforces that.
    pub evaluate_entries: Vec<EcmascriptChunkPlaceable>,
    /// All chunks of this chunk group need to be ready before execution can
    /// start. When `None`, the group derived from the chunk being evaluated
    /// is used instead.
    pub chunk_group: Option<ChunkGroup>,
    /// The absolute path of the chunk-list manifest asset, registered when
    /// this chunk is evaluated.
    pub chunk_list_path: Option<String>,
}

/// The descriptor embedded into an evaluatable chunk's runtime payload: a
/// terminal snapshot holding no references back into the chunk graph.
pub struct EcmascriptChunkContentEvaluate {
    /// Root-relative server paths of the member chunks that are themselves
    /// executable script chunks, excluding the chunk being evaluated, in
    /// group order.
    pub ecma_chunks_server_paths: Vec<String>,
    /// Root-relative server paths of the member chunks that are not
    /// executable scripts, in group order.
    pub other_chunks_server_paths: Vec<String>,
    /// Module ids to invoke, one per requested entry, in request order.
    pub entry_modules_ids: Vec<ModuleId>,
    /// Root-relative server path of the chunk-list manifest; `None` when no
    /// manifest was requested or when its path falls outside the output
    /// root.
    pub chunk_list_path: Option<String>,
}

/// The membership of the effective chunk group: the request's explicit group
/// when present, otherwise the group derived from the origin chunk.
pub open spec fn effective_members(e: EcmascriptChunkEvaluate, origin_group: ChunkGroup) -> Seq<
    Chunk,
> {
    match e.chunk_group {
        Some(group) => group.chunks@,
        None => origin_group.chunks@,
    }
}

/// Whether chunk `c` contributes a server path to the list chosen by
/// `script`: it must carry the chunk-in-group marker and lie under the output
/// root; the script list takes the ECMAScript chunks other than the origin
/// chunk, the asset list takes everything that is not an ECMAScript chunk.
pub open spec fn selected(c: Chunk, origin_id: u64, root: Seq<char>, script: bool) -> bool {
    &&& c.in_group
    &&& path_in_root(root, c.path@)
    &&& if script {
        c.kind == ChunkKind::Script && c.id != origin_id
    } else {
        c.kind != ChunkKind::Script
    }
}

/// The server paths that `members` contribute to the list chosen by
/// `script`, in member order.
pub open spec fn server_paths(
    members: Seq<Chunk>,
    origin_id: u64,
    root: Seq<char>,
    script: bool,
) -> Seq<Seq<char>>
    decreases members.len(),
{
    if members.len() == 0 {
        Seq::empty()
    } else {
        let rest = server_paths(members.drop_last(), origin_id, root, script);
        if selected(members.last(), origin_id, root, script) {
            rest.push(root_relative(root, members.last().path@))
        } else {
            rest
        }
    }
}

/// The module ids of `entries`, one per entry, in entry order.
pub open spec fn entry_module_ids(entries: Seq<EcmascriptChunkPlaceable>) -> Seq<ModuleId> {
    entries.map_values(|e: EcmascriptChunkPlaceable| e.chunk_item.id)
}

/// The server path stored for a requested chunk-list manifest path: `None`
/// when no manifest was requested or when its path falls outside the root.
pub open spec fn chunk_list_server_path(root: Seq<char>, requested: Option<Seq<char>>) -> Option<
    Seq<char>,
> {
    match requested {
        Some(p) => if path_in_root(root, p) {
            Some(root_relative(root, p))
        } else {
            None
        },
        None => None,
    }
}

/// What a correctly built descriptor holds, stated over the views of the
/// request `e`, the identity `origin_id` of the chunk being evaluated, the
/// output root `root`, and the group `origin_group` derived from the origin
/// chunk.
pub open spec fn content_matches(
    r: EcmascriptChunkContentEvaluate,
    e: EcmascriptChunkEvaluate,
    origin_id: u64,
    root: Seq<char>,
    origin_group: ChunkGroup,
) -> bool {
    &&& r.ecma_chunks_server_paths.deep_view() == server_paths(
        effective_members(e, origin_group),
        origin_id,
        root,
        true,
    )
    &&& r.other_chunks_server_paths.deep_view() == server_paths(
        effective_members(e, origin_group),
        origin_id,
        root,
        false,
    )
    &&& r.entry_modules_ids@ == entry_module_ids(e.evaluate_entries@)
    &&& r.chunk_list_path.deep_view() == chunk_list_server_path(root, e.chunk_list_path.deep_view())
}

impl EcmascriptChunkEvaluate {
    /// Builds the descriptor for evaluating this request from `origin_chunk`
    /// under `context`. `origin_group` is the chunk group the chunk-group
    /// resolver derives from `origin_chunk`; it is consulted only when the
    /// request names no explicit group.
    pub fn content(
        &self,
        context: &ChunkingContext,
        origin_chunk: &Chunk,
        origin_group: &ChunkGroup,
    ) -> (r: EcmascriptChunkContentEvaluate)
        ensures
            content_matches(r, *self, origin_chunk.id, context.output_root@, *origin_group),
    {
        let members: &Vec<Chunk> = match &self.chunk_group {
            Some(group) => group.chunks(),
            None => origin_group.chunks(),
        };
        let root = context.output_root();
        let mut ecma_chunks_server_paths: Vec<String> = Vec::new();
        let mut other_chunks_server_paths: Vec<String> = Vec::new();
        let mut i: usize = 0;
        while i < members.len()
            invariant
                i <= members@.len(),
                members@ == effective_members(*self, *origin_group),
                root@ == context.output_root@,
                ecma_chunks_server_paths.deep_view() == server_paths(
                    members@.take(i as int),
                    origin_chunk.id,
                    root@,
                    true,
                ),
                other_chunks_server_paths.deep_view() == server_paths(
                    members@.take(i as int),
                    origin_chunk.id,
                    root@,
                    false,
                ),
            decreases members@.len() - i,
        {
            let chunk = &members[i];
            proof {
                assert(members@.take(i + 1).drop_last() =~= members@.take(i as int));
                assert(members@.take(i + 1).last() == members@[i as int]);
            }
            if chunk.in_group {
                let is_script = match chunk.kind {
                    ChunkKind::Script => true,
                    ChunkKind::Other => false,
                };
                if is_script && chunk.id == origin_chunk.id {
                    // Self-exclusion: the chunk being evaluated already knows
                    // it is executing itself.
                } else {
                    match get_path_to(root.as_str(), chunk.path.as_str()) {
                        Some(server_path) => {
                            let ghost ecma_before = ecma_chunks_server_paths.deep_view();
                            let ghost other_before = other_chunks_server_paths.deep_view();
                            let ghost pushed = server_path@;
                            if is_script {
                                ecma_chunks_server_paths.push(server_path);
                                proof {
                                    assert(ecma_chunks_server_paths.deep_view() =~= ecma_before.push(
                                        pushed,
                                    ));
                                }
                            } else {
                                other_chunks_server_paths.push(server_path);
                                proof {
                                    assert(other_chunks_server_paths.deep_view()
                                        =~= other_before.push(pushed));
                                }
                            }
                        },
                        None => {},
                    }
                }
            }
            i += 1;
        }
        proof {
            assert(members@.take(members@.len() as int) =~= members@);
        }
        let mut entry_modules_ids: Vec<ModuleId> = Vec::new();
        let mut j: usize = 0;
        while j < self.evaluate_entries.len()
            invariant
                j <= self.evaluate_entries@.len(),
                entry_modules_ids@ == entry_module_ids(self.evaluate_entries@.take(j as int)),
            decreases self.evaluate_entries@.len() - j,
        {
            let entry = &self.evaluate_entries[j];
            let item = entry.as_chunk_item(context);
            entry_modules_ids.push(item.id());
            proof {
                assert(entry_module_ids(self.evaluate_entries@.take(j + 1)) =~= entry_module_ids(
                    self.evaluate_entries@.take(j as int),
                ).push(self.evaluate_entries@[j as int].chunk_item.id));
            }
            j += 1;
        }
        proof {
            assert(self.evaluate_entries@.take(self.evaluate_entries@.len() as int)
                =~= self.evaluate_entries@);
        }
        let chunk_list_path: Option<String> = match &self.chunk_list_path {
            Some(list_path) => get_path_to(root.as_str(), list_path.as_str()),
            None => None,
        };
        EcmascriptChunkContentEvaluate {
            ecma_chunks_server_paths,
            other_chunks_server_paths,
            entry_modules_ids,
            chunk_list_path,
        }
    }
}

/// How many entries of `paths` equal `p`.
pub open spec fn count_path(paths: Seq<Seq<char>>, p: Seq<char>) -> nat
    decreases paths.len(),
{
    if paths.len() == 0 {
        0
    } else {
        count_path(paths.drop_last(), p) + if paths.last() == p {
            1nat
        } else {
            0nat
        }
    }
}

/// How many members are selected for the list chosen by `script` and map to
/// the server path `p`.
pub open spec fn count_selected(
    members: Seq<Chunk>,
    origin_id: u64,
    root: Seq<char>,
    script: bool,
    p: Seq<char>,
) -> nat
    decreases members.len(),
{
    if members.len() == 0 {
        0
    } else {
        count_selected(members.drop_last(), origin_id, root, script, p) + if selected(
            members.last(),
            origin_id,
            root,
            script,
        ) && root_relative(root, members.last().path@) == p {
            1nat
        } else {
            0nat
        }
    }
}

/// Group members carry pairwise distinct paths: the chunk graph addresses
/// each output file by one chunk.
pub open spec fn distinct_paths(members: Seq<Chunk>) -> bool {
    forall|i: int, j: int|
        0 <= i < members.len() && 0 <= j < members.len() && members[i].path@ == members[j].path@
            ==> i == j
}

proof fn lemma_count_server_paths(
    members: Seq<Chunk>,
    origin_id: u64,
    root: Seq<char>,
    script: bool,
    p: Seq<char>,
)
    ensures
        count_path(server_paths(members, origin_id, root, script), p) == count_selected(
            members,
            origin_id,
            root,
            script,
            p,
        ),
    decreases members.len(),
{
    if members.len() > 0 {
        lemma_count_server_paths(members.drop_last(), origin_id, root, script, p);
        if selected(members.last(), origin_id, root, script) {
            let rest = server_paths(members.drop_last(), origin_id, root, script);
            let pushed = rest.push(root_relative(root, members.last().path@));
            assert(pushed.drop_last() =~= rest);
            assert(pushed.last() == root_relative(root, members.last().path@));
        }
    }
}

proof fn lemma_count_path_contains(paths: Seq<Seq<char>>, p: Seq<char>)
    ensures
        count_path(paths, p) > 0 <==> paths.contains(p),
    decreases paths.len(),
{
    if paths.len() > 0 {
        lemma_count_path_contains(paths.drop_last(), p);
        if paths.last() == p {
            assert(paths[paths.len() - 1] == p);
        } else {
            if paths.drop_last().contains(p) {
                let i = choose|i: int| 0 <= i < paths.drop_last().len() && paths.drop_last()[i] == p;
                assert(paths[i] == p);
            }
            if paths.contains(p) {
                let i = choose|i: int| 0 <= i < paths.len() && paths[i] == p;
                assert(i < paths.len() - 1);
                assert(paths.drop_last()[i] == p);
            }
        }
    }
}

proof fn lemma_count_selected_pos(
    members: Seq<Chunk>,
    origin_id: u64,
    root: Seq<char>,
    script: bool,
    p: Seq<char>,
)
    ensures
        count_selected(members, origin_id, root, script, p) > 0 <==> exists|i: int|
            0 <= i < members.len() && #[trigger] selected(members[i], origin_id, root, script)
                && root_relative(root, members[i].path@) == p,
    decreases members.len(),
{
    if members.len() > 0 {
        lemma_count_selected_pos(members.drop_last(), origin_id, root, script, p);
        let last_index = members.len() - 1;
        if selected(members.last(), origin_id, root, script) && root_relative(
            root,
            members.last().path@,
        ) == p {
            assert(members[last_index as int] == members.last());
            assert(selected(members[last_index as int], origin_id, root, script));
        } else {
            if count_selected(members.drop_last(), origin_id, root, script, p) > 0 {
                let i = choose|i: int|
                    0 <= i < members.drop_last().len() && #[trigger] selected(
                        members.drop_last()[i],
                        origin_id,
                        root,
                        script,
                    ) && root_relative(root, members.drop_last()[i].path@) == p;
                assert(members.drop_last()[i] == members[i]);
                assert(selected(members[i], origin_id, root, script));
            }
            if exists|i: int|
                0 <= i < members.len() && #[trigger] selected(members[i], origin_id, root, script)
                    && root_relative(root, members[i].path@) == p {
                let i = choose|i: int|
                    0 <= i < members.len() && #[trigger] selected(
                        members[i],
                        origin_id,
                        root,
                        script,
                    ) && root_relative(root, members[i].path@) == p;
                assert(i < last_index);
                assert(members.drop_last()[i] == members[i]);
                assert(selected(members.drop_last()[i], origin_id, root, script));
            }
        }
    }
}

proof fn lemma_count_selected_at_most_one(
    members: Seq<Chunk>,
    origin_id: u64,
    root: Seq<char>,
    script: bool,
    p: Seq<char>,
)
    requires
        distinct_paths(members),
    ensures
        count_selected(members, origin_id, root, script, p) <= 1,
    decreases members.len(),
{
    if members.len() > 0 {
        assert forall|i: int, j: int|
            0 <= i < members.drop_last().len() && 0 <= j < members.drop_last().len()
                && members.drop_last()[i].path@ == members.drop_last()[j].path@ implies i == j by {
            assert(members.drop_last()[i] == members[i]);
            assert(members.drop_last()[j] == members[j]);
        }
        lemma_count_selected_at_most_one(members.drop_last(), origin_id, root, script, p);
        let last = members.last();
        if selected(last, origin_id, root, script) && root_relative(root, last.path@) == p {
            if count_selected(members.drop_last(), origin_id, root, script, p) > 0 {
                lemma_count_selected_pos(members.drop_last(), origin_id, root, script, p);
                let i = choose|i: int|
                    0 <= i < members.drop_last().len() && #[trigger] selected(
                        members.drop_last()[i],
                        origin_id,
                        root,
                        script,
                    ) && root_relative(root, members.drop_last()[i].path@) == p;
                assert(members.drop_last()[i] == members[i]);
                lemma_root_relative_injective(root, members[i].path@, last.path@);
                assert(members[members.len() - 1] == last);
                assert(members[i].path@ == members[members.len() - 1].path@);
                assert(false);
            }
        }
    }
}

/// Self-exclusion: when every group member that shares the origin chunk's
/// path is the origin chunk itself, the origin chunk's server path never
/// appears in the script list.
pub proof fn lemma_self_exclusion(members: Seq<Chunk>, origin: Chunk, root: Seq<char>)
    requires
        path_in_root(root, origin.path@),
        forall|i: int|
            0 <= i < members.len() && #[trigger] members[i].path@ == origin.path@
                ==> members[i].id == origin.id,
    ensures
        !server_paths(members, origin.id, root, true).contains(root_relative(root, origin.path@)),
{
    let p = root_relative(root, origin.path@);
    lemma_count_server_paths(members, origin.id, root, true, p);
    lemma_count_selected_pos(members, origin.id, root, true, p);
    lemma_count_path_contains(server_paths(members, origin.id, root, true), p);
    if count_selected(members, origin.id, root, true, p) > 0 {
        let i = choose|i: int|
            0 <= i < members.len() && #[trigger] selected(members[i], origin.id, root, true)
                && root_relative(root, members[i].path@) == p;
        lemma_root_relative_injective(root, members[i].path@, origin.path@);
        assert(members[i].path@ == origin.path@);
        assert(false);
    }
}

/// Self-exclusion, stated of a built descriptor: its script list never holds
/// the origin chunk's server path.
pub proof fn lemma_descriptor_self_exclusion(
    r: EcmascriptChunkContentEvaluate,
    e: EcmascriptChunkEvaluate,
    origin: Chunk,
    root: Seq<char>,
    origin_group: ChunkGroup,
)
    requires
        content_matches(r, e, origin.id, root, origin_group),
        path_in_root(root, origin.path@),
        forall|i: int|
            0 <= i < effective_members(e, origin_group).len() && #[trigger] effective_members(
                e,
                origin_group,
            )[i].path@ == origin.path@ ==> effective_members(e, origin_group)[i].id == origin.id,
    ensures
        !r.ecma_chunks_server_paths.deep_view().contains(root_relative(root, origin.path@)),
{
    lemma_self_exclusion(effective_members(e, origin_group), origin, root);
}

/// Classification partition: an addressable chunk that carries the group
/// marker and is not the origin script chunk contributes its server path to
/// exactly one of the two lists, exactly once — given that group members
/// carry pairwise distinct paths.
pub proof fn lemma_classification_partition(
    members: Seq<Chunk>,
    origin_id: u64,
    root: Seq<char>,
    k: int,
)
    requires
        distinct_paths(members),
        0 <= k < members.len(),
        members[k].in_group,
        path_in_root(root, members[k].path@),
        !(members[k].kind == ChunkKind::Script && members[k].id == origin_id),
    ensures
        count_path(server_paths(members, origin_id, root, true), root_relative(root, members[k].path@))
            + count_path(
            server_paths(members, origin_id, root, false),
            root_relative(root, members[k].path@),
        ) == 1,
{
    let p = root_relative(root, members[k].path@);
    lemma_count_server_paths(members, origin_id, root, true, p);
    lemma_count_server_paths(members, origin_id, root, false, p);
    lemma_count_selected_pos(members, origin_id, root, true, p);
    lemma_count_selected_pos(members, origin_id, root, false, p);
    let home = members[k].kind == ChunkKind::Script;
    assert(selected(members[k], origin_id, root, home));
    lemma_count_selected_at_most_one(members, origin_id, root, home, p);
    assert(count_selected(members, origin_id, root, home, p) == 1);
    let away = !home;
    if count_selected(members, origin_id, root, away, p) > 0 {
        let i = choose|i: int|
            0 <= i < members.len() && #[trigger] selected(members[i], origin_id, root, away)
                && root_relative(root, members[i].path@) == p;
        lemma_root_relative_injective(root, members[i].path@, members[k].path@);
        assert(members[i].path@ == members[k].path@);
        assert(i == k);
        assert(false);
    }
}

/// Order preservation for entry ids: one module id per requested entry, in
/// request order.
pub proof fn lemma_entry_order(entries: Seq<EcmascriptChunkPlaceable>)
    ensures
        entry_module_ids(entries).len() == entries.len(),
        forall|i: int|
            0 <= i < entries.len() ==> entry_module_ids(entries)[i] == entries[i].chunk_item.id,
{
}

proof fn lemma_server_paths_take_prefix(
    members: Seq<Chunk>,
    origin_id: u64,
    root: Seq<char>,
    script: bool,
    n: int,
)
    requires
        0 <= n <= members.len(),
    ensures
        server_paths(members.take(n), origin_id, root, script).is_prefix_of(
            server_paths(members, origin_id, root, script),
        ),
    decreases members.len(),
{
    let taken = server_paths(members.take(n), origin_id, root, script);
    let whole = server_paths(members, origin_id, root, script);
    if n == members.len() {
        assert(members.take(n) =~= members);
        assert(taken =~= whole.subrange(0, taken.len() as int));
    } else {
        assert(members.take(n) =~= members.drop_last().take(n));
        lemma_server_paths_take_prefix(members.drop_last(), origin_id, root, script, n);
        let shorter = server_paths(members.drop_last(), origin_id, root, script);
        assert(taken =~= shorter.subrange(0, taken.len() as int));
        if selected(members.last(), origin_id, root, script) {
            assert(shorter =~= whole.drop_last());
            assert(taken =~= whole.subrange(0, taken.len() as int));
        }
    }
}

/// Order preservation for chunk paths: of two group members that both
/// contribute to the same list, the earlier member's server path stands at an
/// earlier position.
pub proof fn lemma_member_order(
    members: Seq<Chunk>,
    origin_id: u64,
    root: Seq<char>,
    script: bool,
    i: int,
    j: int,
)
    requires
        0 <= i < j < members.len(),
        selected(members[i], origin_id, root, script),
        selected(members[j], origin_id, root, script),
    ensures
        exists|pi: int, pj: int|
            0 <= pi < pj < server_paths(members, origin_id, root, script).len()
                && #[trigger] server_paths(members, origin_id, root, script)[pi] == root_relative(
                root,
                members[i].path@,
            ) && #[trigger] server_paths(members, origin_id, root, script)[pj] == root_relative(
                root,
                members[j].path@,
            ),
{
    let whole = server_paths(members, origin_id, root, script);
    let pi = server_paths(members.take(i), origin_id, root, script).len() as int;
    let pj = server_paths(members.take(j), origin_id, root, script).len() as int;
    assert(members.take(i + 1).drop_last() =~= members.take(i));
    assert(members.take(i + 1).last() == members[i]);
    assert(members.take(j + 1).drop_last() =~= members.take(j));
    assert(members.take(j + 1).last() == members[j]);
    let upto_i = server_paths(members.take(i + 1), origin_id, root, script);
    let upto_j = server_paths(members.take(j + 1), origin_id, root, script);
    assert(upto_i.len() == pi + 1 && upto_i[pi] == root_relative(root, members[i].path@));
    assert(upto_j.len() == pj + 1 && upto_j[pj] == root_relative(root, members[j].path@));
    assert(members.take(j).take(i + 1) =~= members.take(i + 1));
    lemma_server_paths_take_prefix(members.take(j), origin_id, root, script, i + 1);
    assert(pi < pj);
    lemma_server_paths_take_prefix(members, origin_id, root, script, i + 1);
    lemma_server_paths_take_prefix(members, origin_id, root, script, j + 1);
    assert(upto_i =~= whole.subrange(0, pi + 1));
    assert(upto_j =~= whole.subrange(0, pj + 1));
    assert(whole[pi] == root_relative(root, members[i].path@));
    assert(whole[pj] == root_relative(root, members[j].path@));
}

proof fn lemma_unselected_contributes_nothing(
    members: Seq<Chunk>,
    origin_id: u64,
    root: Seq<char>,
    script: bool,
    k: int,
)
    requires
        0 <= k < members.len(),
        !selected(members[k], origin_id, root, script),
    ensures
        server_paths(members.remove(k), origin_id, root, script) == server_paths(
            members,
            origin_id,
            root,
            script,
        ),
    decreases members.len(),
{
    if k == members.len() - 1 {
        assert(members.remove(k) =~= members.drop_last());
    } else {
        assert(members.drop_last()[k] == members[k]);
        lemma_unselected_contributes_nothing(members.drop_last(), origin_id, root, script, k);
        assert(members.remove(k).drop_last() =~= members.drop_last().remove(k));
        assert(members.remove(k).last() == members.last());
    }
}

/// Root filtering: a member chunk whose path lies outside the output root
/// contributes no entry to either path list — removing it from the group
/// leaves both lists unchanged.
pub proof fn lemma_root_filtering(members: Seq<Chunk>, origin_id: u64, root: Seq<char>, k: int)
    requires
        0 <= k < members.len(),
        !path_in_root(root, members[k].path@),
    ensures
        server_paths(members.remove(k), origin_id, root, true) == server_paths(
            members,
            origin_id,
            root,
            true,
        ),
        server_paths(members.remove(k), origin_id, root, false) == server_paths(
            members,
            origin_id,
            root,
            false,
        ),
{
    lemma_unselected_contributes_nothing(members, origin_id, root, true, k);
    lemma_unselected_contributes_nothing(members, origin_id, root, false, k);
}

/// Non-member skipping: a chunk that no chunk-in-group record wraps
/// contributes no entry to either path list.
pub proof fn lemma_non_member_skipped(members: Seq<Chunk>, origin_id: u64, root: Seq<char>, k: int)
    requires
        0 <= k < members.len(),
        !members[k].in_group,
    ensures
        server_paths(members.remove(k), origin_id, root, true) == server_paths(
            members,
            origin_id,
            root,
            true,
        ),
        server_paths(members.remove(k), origin_id, root, false) == server_paths(
            members,
            origin_id,
            root,
            false,
        ),
{
    lemma_unselected_contributes_nothing(members, origin_id, root, true, k);
    lemma_unselected_contributes_nothing(members, origin_id, root, false, k);
}

/// Default group derivation: when the request names no explicit chunk group,
/// the effective membership is exactly that of the group derived from the
/// origin chunk.
pub proof fn lemma_default_group(e: EcmascriptChunkEvaluate, origin_group: ChunkGroup)
    requires
        e.chunk_group is None,
    ensures
        effective_members(e, origin_group) == origin_group.chunks@,
{
}

/// Idempotence: two descriptors built from the same request, origin chunk,
/// output root and derived group agree on every field, up to view.
pub proof fn lemma_idempotent(
    r1: EcmascriptChunkContentEvaluate,
    r2: EcmascriptChunkContentEvaluate,
    e: EcmascriptChunkEvaluate,
    origin_id: u64,
    root: Seq<char>,
    origin_group: ChunkGroup,
)
    requires
        content_matches(r1, e, origin_id, root, origin_group),
        content_matches(r2, e, origin_id, root, origin_group),
    ensures
        r1.ecma_chunks_server_paths.deep_view() == r2.ecma_chunks_server_paths.deep_view(),
        r1.other_chunks_server_paths.deep_view() == r2.other_chunks_server_paths.deep_view(),
        r1.entry_modules_ids@ == r2.entry_modules_ids@,
        r1.chunk_list_path.deep_view() == r2.chunk_list_path.deep_view(),
{
}

} // verus!
