//! Compiling a script into a conversation graph, and walking that graph.

use vstd::prelude::*;

use crate::errors::NextActionError;
use crate::graph::{
    add_edge, add_node, edge_count, empty_graph, first_successor, graph_edges, graph_nodes,
    node_at, node_count, DialogueGraph, DialogueNode, NodeKind,
};
use crate::rules::{
    choice_error, choice_edges, edges_upto, has_id_before, has_line, has_start_before, ids_of,
    index_of, is_start, line_error, link_error, links_error, compiled_from, nodes_match, choices_view,
    scan_error, script_error, start_index, talker_index, lemma_scan_settles, lemma_choice_settles,
    lemma_links_settles, lemma_talker_index_bounded, lemma_missing_line, lemma_edges_split,
    lemma_edges_sources, line_edges,
};
use crate::script::{copy_choices, Choice, RawTalk, Talker};

verus! {

/// Why a script does not compile.
#[derive(Debug, Clone, PartialEq, Eq)]
pub enum ConversationError {
    /// The script has no lines.
    NoLines,
    /// The line (first field) names a talker (second field) that is not in the talker list.
    TalkerNotFound(i32, String),
    /// The line (first field) points to an id (second field) that no line has.
    NextLineNotFound(i32, i32),
    /// The line has the same id as an earlier one.
    RepeatedId(i32),
    /// No line is flagged as the start.
    NoStartingDialogue,
    /// More than one line is flagged as the start.
    MultipleStartingDialogues,
}

/// A compiled conversation: the graph of lines, the id of each node, and the
/// node the conversation is at.
pub struct Conversation {
    dialogue_graph: DialogueGraph,
    ids: Vec<i32>,
    current: usize,
}

/// Position of the last talker named `name`, the one that a lookup keyed by
/// name keeps.
fn find_talker(talkers: &Vec<Talker>, name: &String) -> (r: Option<usize>)
    ensures
        match r {
            Some(j) => j < talkers@.len() && talker_index(talkers@, name@, talkers@.len() as int)
                == Some(j as int),
            None => talker_index(talkers@, name@, talkers@.len() as int) is None,
        },
{
    let mut k: usize = talkers.len();
    while k > 0
        invariant
            k <= talkers@.len(),
            talker_index(talkers@, name@, talkers@.len() as int) == talker_index(
                talkers@,
                name@,
                k as int,
            ),
        decreases k,
    {
        if talkers[k - 1].name == *name {
            proof {
                lemma_talker_index_bounded(talkers@, name@, talkers@.len() as int);
            }
            return Some(k - 1);
        }
        k = k - 1;
    }
    None
}

/// Position of the first entry of `ids` equal to `id`.
fn find_id(ids: &Vec<i32>, id: i32) -> (r: Option<usize>)
    ensures
        match r {
            Some(j) => j < ids@.len() && ids@[j as int] == id && forall|k: int|
                0 <= k < j ==> ids@[k] != id,
            None => forall|k: int| 0 <= k < ids@.len() ==> ids@[k] != id,
        },
{
    let mut k: usize = 0;
    while k < ids.len()
        invariant
            k <= ids@.len(),
            forall|m: int| 0 <= m < k ==> ids@[m] != id,
        decreases ids.len() - k,
    {
        if ids[k] == id {
            return Some(k);
        }
        k = k + 1;
    }
    None
}

impl Conversation {
    /// The node weights, by node index.
    pub closed spec fn nodes(&self) -> Seq<DialogueNode> {
        graph_nodes(self.dialogue_graph)
    }

    /// The edges as (source, target) node indices.
    pub closed spec fn edges(&self) -> Seq<(int, int)> {
        graph_edges(self.dialogue_graph)
    }

    /// The author's id of each node.
    pub closed spec fn ids(&self) -> Seq<i32> {
        self.ids@
    }

    /// The node the conversation is at.
    pub closed spec fn current(&self) -> int {
        self.current as int
    }

    /// Ids are unique, the cursor and every edge stay inside the graph, and a
    /// talk node has at most one outgoing edge.
    pub open spec fn wf(&self) -> bool {
        &&& self.nodes().len() == self.ids().len()
        &&& 0 <= self.current() < self.nodes().len()
        &&& forall|a: int, b: int|
            0 <= a < b < self.ids().len() ==> self.ids()[a] != self.ids()[b]
        &&& forall|e: int|
            0 <= e < self.edges().len() ==> {
                &&& 0 <= (#[trigger] self.edges()[e]).0 < self.nodes().len()
                &&& 0 <= self.edges()[e].1 < self.nodes().len()
            }
        &&& forall|e1: int, e2: int|
            0 <= e1 < self.edges().len() && 0 <= e2 < self.edges().len() && (
            #[trigger] self.edges()[e1]).0 == (#[trigger] self.edges()[e2]).0
                && self.nodes()[self.edges()[e1].0].kind == NodeKind::Talk ==> e1 == e2
    }

    /// Validates `talk` and compiles it: one node per line, in line order, an
    /// edge for each `next` and, on a line without `next`, one for each
    /// choice; the cursor starts on the start line.
    pub fn new(talk: RawTalk) -> (r: Result<Conversation, ConversationError>)
        ensures
            match r {
                Err(e) => script_error(talk) == Some(e),
                Ok(c) => {
                    &&& script_error(talk) is None
                    &&& c.wf()
                    &&& nodes_match(c.nodes(), talk.talkers@, talk.lines@)
                    &&& c.edges() == edges_upto(talk.lines@, talk.lines@.len() as int)
                    &&& c.ids() == ids_of(talk.lines@)
                    &&& c.current() == start_index(talk.lines@)
                },
            },
    {
        let talkers = &talk.talkers;
        let lines = &talk.lines;
        let ghost ts = talkers@;
        let ghost ls = lines@;
        let n: usize = lines.len();
        if n == 0 {
            return Err(ConversationError::NoLines);
        }
        let mut graph = empty_graph();
        let mut ids: Vec<i32> = Vec::new();
        let mut first_line: Option<usize> = None;
        let mut i: usize = 0;
        while i < n
            invariant
                n == ls.len(),
                n > 0,
                ts == talkers@,
                ls == lines@,
                ls == talk.lines@,
                ts == talk.talkers@,
                i <= n,
                scan_error(ts, ls, i as int) is None,
                forall|k: int| 0 <= k < i ==> line_error(ts, ls, k) is None,
                nodes_match(graph_nodes(graph), ts, ls.subrange(0, i as int)),
                graph_edges(graph) == Seq::<(int, int)>::empty(),
                ids@ == ids_of(ls.subrange(0, i as int)),
                match first_line {
                    None => !has_start_before(ls, i as int),
                    Some(s) => s < i && is_start(ls[s as int]) && forall|k: int|
                        0 <= k < i && is_start(#[trigger] ls[k]) ==> k == s,
                },
            decreases n - i,
        {
            let line = &lines[i];
            let talker: Option<Talker> = match &line.talker {
                Some(name) => match find_talker(talkers, name) {
                    Some(j) => Some(talkers[j].copied()),
                    None => {
                        proof {
                            assert(scan_error(ts, ls, i + 1) == Some(
                                ConversationError::TalkerNotFound(line.id, *name),
                            ));
                            lemma_scan_settles(ts, ls, i + 1, n as int);
                        }
                        return Err(ConversationError::TalkerNotFound(line.id, name.clone()));
                    },
                },
                None => None,
            };
            let choices: Option<Vec<Choice>> = match &line.choices {
                Some(cs) => Some(copy_choices(cs)),
                None => None,
            };
            let kind = if line.next.is_none() && line.choices.is_some() {
                NodeKind::Choice
            } else {
                NodeKind::Talk
            };
            let node = DialogueNode { text: line.text.clone(), talker, choices, kind };
            assert(compiled_from(node, ts, ls[i as int]));
            let idx = add_node(&mut graph, node);
            if let Some(true) = line.start {
                if first_line.is_some() {
                    proof {
                        assert(has_start_before(ls, i as int));
                        assert(scan_error(ts, ls, i + 1) == Some(
                            ConversationError::MultipleStartingDialogues,
                        ));
                        lemma_scan_settles(ts, ls, i + 1, n as int);
                    }
                    return Err(ConversationError::MultipleStartingDialogues);
                }
                first_line = Some(idx);
            }
            assert(has_id_before(ls, i as int, line.id) == exists|k: int|
                0 <= k < ids@.len() && ids@[k] == line.id) by {
                if has_id_before(ls, i as int, line.id) {
                    let k = choose|k: int| 0 <= k < i && (#[trigger] ls[k]).id == line.id;
                    assert(ids@[k] == line.id);
                }
            }
            if find_id(&ids, line.id).is_some() {
                proof {
                    assert(scan_error(ts, ls, i + 1) == Some(ConversationError::RepeatedId(line.id)));
                    lemma_scan_settles(ts, ls, i + 1, n as int);
                }
                return Err(ConversationError::RepeatedId(line.id));
            }
            ids.push(line.id);
            assert(line_error(ts, ls, i as int) is None);
            i = i + 1;
            assert(ls.subrange(0, i as int) =~= ls.subrange(0, i - 1).push(ls[i - 1]));
            assert(ids@ =~= ids_of(ls.subrange(0, i as int)));
        }
        assert(ls.subrange(0, n as int) =~= ls);
        let start = match first_line {
            Some(s) => s,
            None => {
                return Err(ConversationError::NoStartingDialogue);
            },
        };
        // Every id is unique from here on.
        assert forall|a: int, b: int| 0 <= a < b < n implies ls[a].id != ls[b].id by {
            assert(line_error(ts, ls, b) is None);
        }
        let mut i: usize = 0;
        while i < n
            invariant
                n == ls.len(),
                n > 0,
                ls == lines@,
                ls == talk.lines@,
                ts == talk.talkers@,
                i <= n,
                scan_error(ts, ls, n as int) is None,
                has_start_before(ls, n as int),
                links_error(ls, i as int) is None,
                forall|a: int, b: int| 0 <= a < b < n ==> ls[a].id != ls[b].id,
                nodes_match(graph_nodes(graph), ts, ls),
                graph_edges(graph) == edges_upto(ls, i as int),
                ids@ == ids_of(ls),
                forall|e: int|
                    0 <= e < graph_edges(graph).len() ==> {
                        &&& 0 <= (#[trigger] graph_edges(graph)[e]).0 < i
                        &&& 0 <= graph_edges(graph)[e].1 < n
                    },
                forall|e1: int, e2: int|
                    0 <= e1 < graph_edges(graph).len() && 0 <= e2 < graph_edges(graph).len() && (
                    #[trigger] graph_edges(graph)[e1]).0 == (#[trigger] graph_edges(graph)[e2]).0
                        && graph_nodes(graph)[graph_edges(graph)[e1].0].kind == NodeKind::Talk ==> e1
                        == e2,
            decreases n - i,
        {
            let line = &lines[i];
            proof {
                assert(compiled_from(graph_nodes(graph)[i as int], ts, ls[i as int]));
            }
            match line.next {
                Some(next_id) => match find_id(&ids, next_id) {
                    Some(j) => {
                        proof {
                            assert(ls[j as int].id == next_id);
                            assert(index_of(ls, next_id) == j);
                            assert(has_line(ls, next_id));
                        }
                        add_edge(&mut graph, i, j);
                    },
                    None => {
                        proof {
                            lemma_missing_line(ls, ids@, next_id);
                            assert(links_error(ls, i + 1) == Some(
                                ConversationError::NextLineNotFound(line.id, next_id),
                            ));
                            lemma_links_settles(ls, i + 1, n as int);
                        }
                        return Err(ConversationError::NextLineNotFound(line.id, next_id));
                    },
                },
                None => match &line.choices {
                    Some(cs) => {
                        let ghost before = graph_edges(graph);
                        let mut m: usize = 0;
                        while m < cs.len()
                            invariant
                                m <= cs@.len(),
                                i < n,
                                ls == lines@,
                                ls == talk.lines@,
                                ts == talk.talkers@,
                                ls[i as int].choices == Some(*cs),
                                ls[i as int].next is None,
                                line.id == ls[i as int].id,
                                ids@ == ids_of(ls),
                                n == ls.len(),
                                forall|a: int, b: int| 0 <= a < b < n ==> ls[a].id != ls[b].id,
                                choice_error(ls, line.id, cs@, m as int) is None,
                                links_error(ls, i as int) is None,
                                scan_error(ts, ls, n as int) is None,
                                has_start_before(ls, n as int),
                                n > 0,
                                nodes_match(graph_nodes(graph), ts, ls),
                                forall|e: int|
                                    0 <= e < graph_edges(graph).len() ==> {
                                        &&& 0 <= (#[trigger] graph_edges(graph)[e]).0 <= i
                                        &&& 0 <= graph_edges(graph)[e].1 < n
                                    },
                                forall|e: int|
                                    0 <= e < before.len() ==> (#[trigger] before[e]).0 < i,
                                forall|e: int|
                                    before.len() <= e < graph_edges(graph).len() ==> (
                                    #[trigger] graph_edges(graph)[e]).0 == i,
                                forall|e1: int, e2: int|
                                    0 <= e1 < before.len() && 0 <= e2 < before.len() && (
                                    #[trigger] before[e1]).0 == (#[trigger] before[e2]).0
                                        && graph_nodes(graph)[before[e1].0].kind == NodeKind::Talk
                                        ==> e1 == e2,
                                graph_nodes(graph)[i as int].kind == NodeKind::Choice,
                                graph_edges(graph) == before + choice_edges(
                                    ls,
                                    i as int,
                                    cs@.subrange(0, m as int),
                                ),
                            decreases cs.len() - m,
                        {
                            let target = cs[m].next;
                            match find_id(&ids, target) {
                                Some(j) => {
                                    proof {
                                        assert(ls[j as int].id == target);
                                        assert(index_of(ls, target) == j);
                                        assert(has_line(ls, target));
                                    }
                                    add_edge(&mut graph, i, j);
                                },
                                None => {
                                    proof {
                                        lemma_missing_line(ls, ids@, target);
                                        let e = ConversationError::NextLineNotFound(line.id, target);
                                        assert(choice_error(ls, line.id, cs@, m + 1) == Some(e));
                                        lemma_choice_settles(
                                            ls,
                                            line.id,
                                            cs@,
                                            m + 1,
                                            cs@.len() as int,
                                        );
                                        assert(link_error(ls, i as int) == Some(e));
                                        assert(links_error(ls, i + 1) == Some(e));
                                        lemma_links_settles(ls, i + 1, n as int);
                                    }
                                    return Err(
                                        ConversationError::NextLineNotFound(line.id, target),
                                    );
                                },
                            }
                            m = m + 1;
                            assert(cs@.subrange(0, m as int) =~= cs@.subrange(0, m - 1).push(
                                cs@[m - 1],
                            ));
                            assert(graph_edges(graph) =~= before + choice_edges(
                                ls,
                                i as int,
                                cs@.subrange(0, m as int),
                            ));
                        }
                        assert(cs@.subrange(0, cs@.len() as int) =~= cs@);
                    },
                    None => {},
                },
            }
            assert(link_error(ls, i as int) is None);
            assert(graph_edges(graph) =~= edges_upto(ls, i + 1));
            i = i + 1;
        }
        Ok(Conversation { dialogue_graph: graph, ids, current: start })
    }

    /// The target of an outgoing edge of node `i`, if it has one (a node
    /// without choices has at most one).
    pub open spec fn successor(&self, i: int) -> Option<int> {
        if exists|e: int| 0 <= e < self.edges().len() && (#[trigger] self.edges()[e]).0 == i {
            let e = choose|e: int| 0 <= e < self.edges().len() && (#[trigger] self.edges()[e]).0 == i;
            Some(self.edges()[e].1)
        } else {
            None
        }
    }

    /// The node the conversation is at.
    pub open spec fn current_node(&self) -> DialogueNode {
        self.nodes()[self.current()]
    }

    /// The index of the node the conversation is at.
    pub fn current_index(&self) -> (r: usize)
        ensures
            r == self.current(),
    {
        self.current
    }

    /// The number of nodes of the graph.
    pub fn node_count(&self) -> (r: usize)
        ensures
            r == self.nodes().len(),
    {
        node_count(&self.dialogue_graph)
    }

    /// The number of edges of the graph.
    pub fn edge_count(&self) -> (r: usize)
        ensures
            r == self.edges().len(),
    {
        edge_count(&self.dialogue_graph)
    }

    /// The text of the current line.
    pub fn current_text(&self) -> (r: &str)
        requires
            self.wf(),
        ensures
            r@ == self.current_node().text@,
    {
        node_at(&self.dialogue_graph, self.current).text.as_str()
    }

    /// The talkers of the current line: its talker, if it has one.
    pub fn current_talkers(&self) -> (r: Vec<Talker>)
        requires
            self.wf(),
        ensures
            r@ == match self.current_node().talker {
                Some(t) => seq![t],
                None => Seq::<Talker>::empty(),
            },
    {
        let node = node_at(&self.dialogue_graph, self.current);
        let mut r: Vec<Talker> = Vec::new();
        if let Some(t) = &node.talker {
            r.push(t.copied());
        }
        r
    }

    /// The choices of the current line, as the script wrote them.
    pub fn current_choices(&self) -> (r: Option<Vec<Choice>>)
        requires
            self.wf(),
        ensures
            choices_view(r) == choices_view(self.current_node().choices),
    {
        let node = node_at(&self.dialogue_graph, self.current);
        match &node.choices {
            Some(cs) => Some(copy_choices(cs)),
            None => None,
        }
    }

    /// Whether the current line is a choice line or a talk line.
    pub fn current_kind(&self) -> (r: NodeKind)
        requires
            self.wf(),
        ensures
            r == self.current_node().kind,
    {
        node_at(&self.dialogue_graph, self.current).kind
    }

    /// Moves to the line after the current one. A choice node (a line with
    /// choices and no `next`) cannot be advanced, and a line with no outgoing edge has nothing to advance to;
    /// on either error the conversation is unchanged.
    pub fn advance(&mut self) -> (r: Result<(), NextActionError>)
        requires
            old(self).wf(),
        ensures
            final(self).wf(),
            final(self).nodes() == old(self).nodes(),
            final(self).edges() == old(self).edges(),
            final(self).ids() == old(self).ids(),
            old(self).current_node().kind == NodeKind::Choice ==> r == Err::<(), NextActionError>(
                NextActionError::ChoicesNotHandled,
            ) && final(self).current() == old(self).current(),
            old(self).current_node().kind == NodeKind::Talk ==> match old(self).successor(
                old(self).current(),
            ) {
                None => r == Err::<(), NextActionError>(NextActionError::NoNextAction)
                    && final(self).current() == old(self).current(),
                Some(j) => r == Ok::<(), NextActionError>(()) && final(self).current() == j,
            },
    {
        let is_choice = match node_at(&self.dialogue_graph, self.current).kind {
            NodeKind::Choice => true,
            NodeKind::Talk => false,
        };
        if is_choice {
            return Err(NextActionError::ChoicesNotHandled);
        }
        match first_successor(&self.dialogue_graph, self.current) {
            None => Err(NextActionError::NoNextAction),
            Some(j) => {
                proof {
                    let e = choose|e: int|
                        0 <= e < self.edges().len() && #[trigger] self.edges()[e] == (
                        self.current as int,
                        j as int,
                    );
                    assert(self.edges()[e].0 == self.current);
                    let f = choose|f: int|
                        0 <= f < self.edges().len() && (#[trigger] self.edges()[f]).0
                            == self.current;
                    assert(e == f);
                }
                self.current = j;
                Ok(())
            },
        }
    }

    /// Moves to the line with id `id`, whichever line the conversation is at.
    /// On an id that no line has, the conversation is unchanged.
    pub fn jump_to(&mut self, id: i32) -> (r: Result<(), NextActionError>)
        requires
            old(self).wf(),
        ensures
            final(self).wf(),
            final(self).nodes() == old(self).nodes(),
            final(self).edges() == old(self).edges(),
            final(self).ids() == old(self).ids(),
            old(self).ids().contains(id) ==> r == Ok::<(), NextActionError>(())
                && final(self).ids()[final(self).current()] == id,
            !old(self).ids().contains(id) ==> r == Err::<(), NextActionError>(
                NextActionError::WrongJump(id),
            ) && final(self).current() == old(self).current(),
    {
        match find_id(&self.ids, id) {
            Some(j) => {
                self.current = j;
                Ok(())
            },
            None => Err(NextActionError::WrongJump(id)),
        }
    }
}
/// In a conversation compiled from `talk`, the line after line `i` is the
/// line its `next` names, and a line with neither `next` nor choices has no
/// line after it.
pub proof fn lemma_successor_follows_script(c: Conversation, talk: RawTalk, i: int)
    requires
        c.wf(),
        nodes_match(c.nodes(), talk.talkers@, talk.lines@),
        c.edges() == edges_upto(talk.lines@, talk.lines@.len() as int),
        0 <= i < talk.lines@.len(),
    ensures
        talk.lines@[i].next matches Some(n) ==> c.successor(i) == Some(index_of(talk.lines@, n)),
        talk.lines@[i].next is None && talk.lines@[i].choices is None ==> c.successor(i) is None,
{
    let ls = talk.lines@;
    let n = ls.len() as int;
    lemma_edges_split(ls, i, i + 1);
    lemma_edges_split(ls, i + 1, n);
    lemma_edges_split(ls, i, n);
    lemma_edges_sources(ls, i);
    let before = edges_upto(ls, i);
    let upto = edges_upto(ls, i + 1);
    let all = edges_upto(ls, n);
    assert(upto == before + line_edges(ls, i));
    assert forall|e: int| 0 <= e < before.len() implies all[e] == before[e] by {
        assert(all.subrange(0, before.len() as int)[e] == before[e]);
    }
    assert forall|e: int| 0 <= e < upto.len() implies all[e] == upto[e] by {
        assert(all.subrange(0, upto.len() as int)[e] == upto[e]);
    }
    if let Some(t) = ls[i].next {
        let p = before.len() as int;
        assert(line_edges(ls, i) == seq![(i, index_of(ls, t))]);
        assert(upto[p] == (i, index_of(ls, t)));
        assert(c.edges()[p] == (i, index_of(ls, t)));
        assert(compiled_from(c.nodes()[i], talk.talkers@, ls[i]));
        let f = choose|f: int| 0 <= f < c.edges().len() && (#[trigger] c.edges()[f]).0 == i;
        assert(f == p);
    } else if ls[i].choices is None {
        assert(line_edges(ls, i) =~= Seq::<(int, int)>::empty());
        assert forall|e: int| 0 <= e < c.edges().len() implies (#[trigger] c.edges()[e]).0 != i by {
            if e < before.len() {
                assert(all[e] == before[e]);
            } else {
                assert(upto.len() == before.len());
            }
        }
    }
}

} // verus!
