//! What compiling a script means: which error a script gets, and otherwise
//! which nodes and edges the compiled graph holds. The laws that follow from
//! it stand at the end.

use vstd::prelude::*;

use crate::conversation::ConversationError;
use crate::graph::{DialogueNode, NodeKind};
use crate::script::{Choice, DialogueLine, RawTalk, Talker};

verus! {

/// The line is flagged as the entry point.
pub open spec fn is_start(l: DialogueLine) -> bool {
    l.start == Some(true)
}

/// Index of the last talker among the first `k` whose name is `name`: later
/// entries of the talker list take over earlier ones.
pub open spec fn talker_index(talkers: Seq<Talker>, name: Seq<char>, k: int) -> Option<int>
    decreases k,
{
    if k <= 0 {
        None
    } else if talkers[k - 1].name@ == name {
        Some(k - 1)
    } else {
        talker_index(talkers, name, k - 1)
    }
}

/// The talker record a name resolves to, if any.
pub open spec fn resolve_talker(talkers: Seq<Talker>, name: Seq<char>) -> Option<Talker> {
    match talker_index(talkers, name, talkers.len() as int) {
        Some(j) => Some(talkers[j]),
        None => None,
    }
}

/// Some line before position `i` is a start line.
pub open spec fn has_start_before(lines: Seq<DialogueLine>, i: int) -> bool {
    exists|j: int| 0 <= j < i && is_start(#[trigger] lines[j])
}

/// Some line before position `i` has id `id`.
pub open spec fn has_id_before(lines: Seq<DialogueLine>, i: int, id: i32) -> bool {
    exists|j: int| 0 <= j < i && (#[trigger] lines[j]).id == id
}

/// Some line of the script has id `id`.
pub open spec fn has_line(lines: Seq<DialogueLine>, id: i32) -> bool {
    has_id_before(lines, lines.len() as int, id)
}

/// The error that line `i` raises when it is added to the graph, checked in
/// this order: its talker, its start flag, its id.
pub open spec fn line_error(talkers: Seq<Talker>, lines: Seq<DialogueLine>, i: int) -> Option<
    ConversationError,
> {
    let l = lines[i];
    if l.talker is Some && talker_index(talkers, l.talker->0@, talkers.len() as int) is None {
        Some(ConversationError::TalkerNotFound(l.id, l.talker->0))
    } else if is_start(l) && has_start_before(lines, i) {
        Some(ConversationError::MultipleStartingDialogues)
    } else if has_id_before(lines, i, l.id) {
        Some(ConversationError::RepeatedId(l.id))
    } else {
        None
    }
}

/// The first error raised while adding the first `k` lines.
pub open spec fn scan_error(talkers: Seq<Talker>, lines: Seq<DialogueLine>, k: int) -> Option<
    ConversationError,
>
    decreases k,
{
    if k <= 0 {
        None
    } else {
        match scan_error(talkers, lines, k - 1) {
            Some(e) => Some(e),
            None => line_error(talkers, lines, k - 1),
        }
    }
}

/// The first of the first `m` choices of line `src` whose target is missing.
pub open spec fn choice_error(lines: Seq<DialogueLine>, src: i32, cs: Seq<Choice>, m: int) -> Option<
    ConversationError,
>
    decreases m,
{
    if m <= 0 {
        None
    } else {
        match choice_error(lines, src, cs, m - 1) {
            Some(e) => Some(e),
            None => if has_line(lines, cs[m - 1].next) {
                None
            } else {
                Some(ConversationError::NextLineNotFound(src, cs[m - 1].next))
            },
        }
    }
}

/// The error raised by the links of line `i`: its `next` when present,
/// otherwise its choices in order.
pub open spec fn link_error(lines: Seq<DialogueLine>, i: int) -> Option<ConversationError> {
    let l = lines[i];
    match l.next {
        Some(n) => if has_line(lines, n) {
            None
        } else {
            Some(ConversationError::NextLineNotFound(l.id, n))
        },
        None => match l.choices {
            Some(cs) => choice_error(lines, l.id, cs@, cs@.len() as int),
            None => None,
        },
    }
}

/// The first error raised by the links of the first `k` lines.
pub open spec fn links_error(lines: Seq<DialogueLine>, k: int) -> Option<ConversationError>
    decreases k,
{
    if k <= 0 {
        None
    } else {
        match links_error(lines, k - 1) {
            Some(e) => Some(e),
            None => link_error(lines, k - 1),
        }
    }
}

/// The error that compiling `talk` fails with, or `None` when it compiles.
pub open spec fn script_error(talk: RawTalk) -> Option<ConversationError> {
    let talkers = talk.talkers@;
    let lines = talk.lines@;
    if lines.len() == 0 {
        Some(ConversationError::NoLines)
    } else if scan_error(talkers, lines, lines.len() as int) is Some {
        scan_error(talkers, lines, lines.len() as int)
    } else if !has_start_before(lines, lines.len() as int) {
        Some(ConversationError::NoStartingDialogue)
    } else {
        links_error(lines, lines.len() as int)
    }
}

/// Position of the line with id `id` (unique in a script that compiles).
pub open spec fn index_of(lines: Seq<DialogueLine>, id: i32) -> int {
    choose|j: int| 0 <= j < lines.len() && (#[trigger] lines[j]).id == id
}

/// Position of the start line (unique in a script that compiles).
pub open spec fn start_index(lines: Seq<DialogueLine>) -> int {
    choose|j: int| 0 <= j < lines.len() && is_start(#[trigger] lines[j])
}

/// The choices of an optional list, as a sequence.
pub open spec fn choices_view(o: Option<Vec<Choice>>) -> Option<Seq<Choice>> {
    match o {
        Some(cs) => Some(cs@),
        None => None,
    }
}

/// `node` is what line `l` compiles to: its text, its talker resolved by
/// name, and its choices. `next` takes priority over choices, so the node is
/// a choice node only when the line has choices and no `next`.
pub open spec fn compiled_from(node: DialogueNode, talkers: Seq<Talker>, l: DialogueLine) -> bool {
    &&& node.text == l.text
    &&& node.talker == match l.talker {
        Some(name) => resolve_talker(talkers, name@),
        None => None,
    }
    &&& choices_view(node.choices) == choices_view(l.choices)
    &&& node.kind == if l.next is None && l.choices is Some {
        NodeKind::Choice
    } else {
        NodeKind::Talk
    }
}

/// `nodes` are what `lines` compile to, one node per line, in order.
pub open spec fn nodes_match(nodes: Seq<DialogueNode>, talkers: Seq<Talker>, lines: Seq<DialogueLine>) -> bool {
    &&& nodes.len() == lines.len()
    &&& forall|i: int| 0 <= i < lines.len() ==> compiled_from(#[trigger] nodes[i], talkers, lines[i])
}

/// The edges of one choice list leaving node `i`, one per choice.
pub open spec fn choice_edges(lines: Seq<DialogueLine>, i: int, cs: Seq<Choice>) -> Seq<(int, int)> {
    cs.map_values(|c: Choice| (i, index_of(lines, c.next)))
}

/// The edges leaving line `i`: one to its `next`, else one to each choice's
/// target, else none.
pub open spec fn line_edges(lines: Seq<DialogueLine>, i: int) -> Seq<(int, int)> {
    match lines[i].next {
        Some(n) => seq![(i, index_of(lines, n))],
        None => match lines[i].choices {
            Some(cs) => choice_edges(lines, i, cs@),
            None => Seq::empty(),
        },
    }
}

/// The edges of the first `k` lines, in line order.
pub open spec fn edges_upto(lines: Seq<DialogueLine>, k: int) -> Seq<(int, int)>
    decreases k,
{
    if k <= 0 {
        Seq::empty()
    } else {
        edges_upto(lines, k - 1) + line_edges(lines, k - 1)
    }
}

/// The ids of the lines, in order.
pub open spec fn ids_of(lines: Seq<DialogueLine>) -> Seq<i32> {
    lines.map_values(|l: DialogueLine| l.id)
}

/// The line names no talker, or one that the talker list holds.
pub open spec fn talker_known(talkers: Seq<Talker>, l: DialogueLine) -> bool {
    l.talker is Some ==> talker_index(talkers, l.talker->0@, talkers.len() as int) is Some
}

/// A talker index found among the first `k` talkers is below `k`.
pub proof fn lemma_talker_index_bounded(talkers: Seq<Talker>, name: Seq<char>, k: int)
    ensures
        talker_index(talkers, name, k) matches Some(j) ==> 0 <= j < k,
    decreases k,
{
    if k > 0 {
        lemma_talker_index_bounded(talkers, name, k - 1);
    }
}

/// An id that no entry of the id list holds belongs to no line.
pub proof fn lemma_missing_line(lines: Seq<DialogueLine>, ids: Seq<i32>, id: i32)
    requires
        ids == ids_of(lines),
        forall|k: int| 0 <= k < ids.len() ==> ids[k] != id,
    ensures
        !has_line(lines, id),
{
    if has_line(lines, id) {
        let j = choose|j: int| 0 <= j < lines.len() && (#[trigger] lines[j]).id == id;
        assert(ids[j] == id);
    }
}

/// Once an error is raised by the first `k` lines, later lines do not change it.
pub proof fn lemma_scan_settles(talkers: Seq<Talker>, lines: Seq<DialogueLine>, k: int, m: int)
    requires
        0 <= k <= m,
        scan_error(talkers, lines, k) is Some,
    ensures
        scan_error(talkers, lines, m) == scan_error(talkers, lines, k),
    decreases m - k,
{
    if m > k {
        lemma_scan_settles(talkers, lines, k, m - 1);
    }
}

/// Once a choice with a missing target is met, later choices do not change the error.
pub proof fn lemma_choice_settles(lines: Seq<DialogueLine>, src: i32, cs: Seq<Choice>, k: int, m: int)
    requires
        0 <= k <= m,
        choice_error(lines, src, cs, k) is Some,
    ensures
        choice_error(lines, src, cs, m) == choice_error(lines, src, cs, k),
    decreases m - k,
{
    if m > k {
        lemma_choice_settles(lines, src, cs, k, m - 1);
    }
}

/// Once a link error is raised by the first `k` lines, later lines do not change it.
pub proof fn lemma_links_settles(lines: Seq<DialogueLine>, k: int, m: int)
    requires
        0 <= k <= m,
        links_error(lines, k) is Some,
    ensures
        links_error(lines, m) == links_error(lines, k),
    decreases m - k,
{
    if m > k {
        lemma_links_settles(lines, k, m - 1);
    }
}

/// A talker index found points at a talker of that name.
pub proof fn lemma_talker_index_found(talkers: Seq<Talker>, name: Seq<char>, k: int)
    ensures
        talker_index(talkers, name, k) matches Some(j) ==> talkers[j].name@ == name,
    decreases k,
{
    if k > 0 {
        lemma_talker_index_found(talkers, name, k - 1);
    }
}

/// With no talker of that name among the first `k`, the lookup finds none.
pub proof fn lemma_talker_absent(talkers: Seq<Talker>, name: Seq<char>, k: int)
    requires
        k <= talkers.len(),
        forall|j: int| 0 <= j < talkers.len() ==> (#[trigger] talkers[j]).name@ != name,
    ensures
        talker_index(talkers, name, k) is None,
    decreases k,
{
    if k > 0 {
        lemma_talker_absent(talkers, name, k - 1);
    }
}

/// Line `i` raising an error, or an earlier one, makes the first pass fail.
proof fn lemma_line_fails(talkers: Seq<Talker>, lines: Seq<DialogueLine>, i: int)
    requires
        0 <= i < lines.len(),
        line_error(talkers, lines, i) is Some,
    ensures
        scan_error(talkers, lines, lines.len() as int) is Some,
        scan_error(talkers, lines, i) is None ==> scan_error(talkers, lines, lines.len() as int)
            == line_error(talkers, lines, i),
{
    assert(scan_error(talkers, lines, i + 1) is Some);
    lemma_scan_settles(talkers, lines, i + 1, lines.len() as int);
}

/// Line `i` raising a link error, or an earlier one, makes the second pass fail.
proof fn lemma_link_fails(lines: Seq<DialogueLine>, i: int)
    requires
        0 <= i < lines.len(),
        link_error(lines, i) is Some,
    ensures
        links_error(lines, lines.len() as int) is Some,
        links_error(lines, i) is None ==> links_error(lines, lines.len() as int) == link_error(
            lines,
            i,
        ),
{
    assert(links_error(lines, i + 1) is Some);
    lemma_links_settles(lines, i + 1, lines.len() as int);
}

/// A script without lines fails with `NoLines`.
pub proof fn lemma_empty_script_fails(talk: RawTalk)
    requires
        talk.lines@.len() == 0,
    ensures
        script_error(talk) == Some(ConversationError::NoLines),
{
}

/// A script where line `i` names a talker that is not in the talker list
/// fails; it fails with `TalkerNotFound` of that line's id and that name
/// unless an earlier line already failed.
pub proof fn lemma_unknown_talker_fails(talk: RawTalk, i: int)
    requires
        0 <= i < talk.lines@.len(),
        talk.lines@[i].talker is Some,
        forall|j: int|
            0 <= j < talk.talkers@.len() ==> (#[trigger] talk.talkers@[j]).name@
                != talk.lines@[i].talker->0@,
    ensures
        script_error(talk) is Some,
        scan_error(talk.talkers@, talk.lines@, i) is None ==> script_error(talk) == Some(
            ConversationError::TalkerNotFound(talk.lines@[i].id, talk.lines@[i].talker->0),
        ),
{
    let ts = talk.talkers@;
    let ls = talk.lines@;
    lemma_talker_absent(ts, ls[i].talker->0@, ts.len() as int);
    lemma_line_fails(ts, ls, i);
}

/// A script where lines `i` and `j` share an id fails; it fails with
/// `RepeatedId` of that id unless a line before `j` already failed, or line
/// `j` itself fails first on its talker or on a second start flag.
pub proof fn lemma_repeated_id_fails(talk: RawTalk, i: int, j: int)
    requires
        0 <= i < j < talk.lines@.len(),
        talk.lines@[i].id == talk.lines@[j].id,
    ensures
        script_error(talk) is Some,
        ({
            let ts = talk.talkers@;
            let ls = talk.lines@;
            scan_error(ts, ls, j) is None && (ls[j].talker is Some ==> talker_index(
                ts,
                ls[j].talker->0@,
                ts.len() as int,
            ) is Some) && !(is_start(ls[j]) && has_start_before(ls, j))
        }) ==> script_error(talk) == Some(ConversationError::RepeatedId(talk.lines@[j].id)),
{
    let ts = talk.talkers@;
    let ls = talk.lines@;
    assert(has_id_before(ls, j, ls[j].id));
    lemma_line_fails(ts, ls, j);
}

/// A script of lines none of which is flagged as the start fails; it fails
/// with `NoStartingDialogue` unless a line already failed.
pub proof fn lemma_no_start_fails(talk: RawTalk)
    requires
        talk.lines@.len() > 0,
        forall|j: int| 0 <= j < talk.lines@.len() ==> !is_start(#[trigger] talk.lines@[j]),
    ensures
        script_error(talk) is Some,
        scan_error(talk.talkers@, talk.lines@, talk.lines@.len() as int) is None ==> script_error(
            talk,
        ) == Some(ConversationError::NoStartingDialogue),
{
}

/// A script where lines `i` and `j` are both flagged as the start fails; it
/// fails with `MultipleStartingDialogues` unless a line before `j` already
/// failed or line `j` names an unknown talker.
pub proof fn lemma_two_starts_fail(talk: RawTalk, i: int, j: int)
    requires
        0 <= i < j < talk.lines@.len(),
        is_start(talk.lines@[i]),
        is_start(talk.lines@[j]),
    ensures
        script_error(talk) is Some,
        ({
            let ts = talk.talkers@;
            let ls = talk.lines@;
            scan_error(ts, ls, j) is None && (ls[j].talker is Some ==> talker_index(
                ts,
                ls[j].talker->0@,
                ts.len() as int,
            ) is Some)
        }) ==> script_error(talk) == Some(ConversationError::MultipleStartingDialogues),
{
    let ts = talk.talkers@;
    let ls = talk.lines@;
    assert(has_start_before(ls, j));
    lemma_line_fails(ts, ls, j);
}

/// A script where the `next` of line `i` names an id that no line has fails;
/// it fails with `NextLineNotFound` of that line's id and the missing id
/// unless it already fails on its lines or its start flag, or an earlier
/// line has a missing link.
pub proof fn lemma_missing_next_fails(talk: RawTalk, i: int)
    requires
        0 <= i < talk.lines@.len(),
        talk.lines@[i].next is Some,
        !has_line(talk.lines@, talk.lines@[i].next->0),
    ensures
        script_error(talk) is Some,
        ({
            let ls = talk.lines@;
            &&& scan_error(talk.talkers@, ls, ls.len() as int) is None
            &&& has_start_before(ls, ls.len() as int)
            &&& links_error(ls, i) is None
        }) ==> script_error(talk) == Some(
            ConversationError::NextLineNotFound(talk.lines@[i].id, talk.lines@[i].next->0),
        ),
{
    lemma_link_fails(talk.lines@, i);
}

/// A script where choice `m` of line `i`, a line without `next`, leads to an
/// id that no line has fails; it fails with `NextLineNotFound` of that line's
/// id and the missing id unless it already fails on its lines or its start
/// flag, an earlier line has a missing link, or an earlier choice of the same
/// line does.
pub proof fn lemma_missing_choice_target_fails(talk: RawTalk, i: int, m: int)
    requires
        0 <= i < talk.lines@.len(),
        talk.lines@[i].next is None,
        talk.lines@[i].choices is Some,
        0 <= m < talk.lines@[i].choices->0@.len(),
        !has_line(talk.lines@, talk.lines@[i].choices->0@[m].next),
    ensures
        script_error(talk) is Some,
        ({
            let ls = talk.lines@;
            &&& scan_error(talk.talkers@, ls, ls.len() as int) is None
            &&& has_start_before(ls, ls.len() as int)
            &&& links_error(ls, i) is None
            &&& choice_error(ls, ls[i].id, ls[i].choices->0@, m) is None
        }) ==> script_error(talk) == Some(
            ConversationError::NextLineNotFound(
                talk.lines@[i].id,
                talk.lines@[i].choices->0@[m].next,
            ),
        ),
{
    let ls = talk.lines@;
    let cs = ls[i].choices->0@;
    assert(choice_error(ls, ls[i].id, cs, m + 1) is Some);
    lemma_choice_settles(ls, ls[i].id, cs, m + 1, cs.len() as int);
    lemma_link_fails(ls, i);
}

/// No error among the first `k` lines means no line among them raises one.
proof fn lemma_scan_clean(talkers: Seq<Talker>, lines: Seq<DialogueLine>, k: int)
    requires
        scan_error(talkers, lines, k) is None,
    ensures
        forall|i: int| 0 <= i < k ==> line_error(talkers, lines, i) is None,
    decreases k,
{
    if k > 0 {
        lemma_scan_clean(talkers, lines, k - 1);
    }
}

/// No link error among the first `k` lines means no line among them raises one.
proof fn lemma_links_clean(lines: Seq<DialogueLine>, k: int)
    requires
        links_error(lines, k) is None,
    ensures
        forall|i: int| 0 <= i < k ==> link_error(lines, i) is None,
    decreases k,
{
    if k > 0 {
        lemma_links_clean(lines, k - 1);
    }
}

/// No error among the first `m` choices means each of them leads to a line.
proof fn lemma_choices_clean(lines: Seq<DialogueLine>, src: i32, cs: Seq<Choice>, m: int)
    requires
        choice_error(lines, src, cs, m) is None,
    ensures
        forall|k: int| 0 <= k < m ==> has_line(lines, (#[trigger] cs[k]).next),
    decreases m,
{
    if m > 0 {
        lemma_choices_clean(lines, src, cs, m - 1);
    }
}

/// A script that compiles has lines, unique ids, exactly one start line,
/// a known talker on every line that names one, and a line for every
/// `next` and for every choice of a line without `next`.
pub proof fn lemma_compiled_script_is_valid(talk: RawTalk)
    requires
        script_error(talk) is None,
    ensures
        talk.lines@.len() > 0,
        forall|a: int, b: int|
            0 <= a < b < talk.lines@.len() ==> talk.lines@[a].id != talk.lines@[b].id,
        exists|a: int| 0 <= a < talk.lines@.len() && is_start(#[trigger] talk.lines@[a]),
        forall|a: int, b: int|
            0 <= a < talk.lines@.len() && 0 <= b < talk.lines@.len() && is_start(
                #[trigger] talk.lines@[a],
            ) && is_start(#[trigger] talk.lines@[b]) ==> a == b,
        forall|i: int|
            0 <= i < talk.lines@.len() && (#[trigger] talk.lines@[i]).talker is Some ==> exists|
                j: int,
            |
                0 <= j < talk.talkers@.len() && (#[trigger] talk.talkers@[j]).name@
                    == talk.lines@[i].talker->0@,
        forall|i: int|
            0 <= i < talk.lines@.len() && (#[trigger] talk.lines@[i]).next is Some ==> has_line(
                talk.lines@,
                talk.lines@[i].next->0,
            ),
        forall|i: int, k: int|
            0 <= i < talk.lines@.len() && (#[trigger] talk.lines@[i]).next is None
                && talk.lines@[i].choices is Some && 0 <= k < talk.lines@[i].choices->0@.len()
                ==> has_line(talk.lines@, (#[trigger] talk.lines@[i].choices->0@[k]).next),
{
    let ts = talk.talkers@;
    let ls = talk.lines@;
    let n = ls.len() as int;
    lemma_scan_clean(ts, ls, n);
    lemma_links_clean(ls, n);
    assert forall|a: int, b: int| 0 <= a < b < n implies ls[a].id != ls[b].id by {
        assert(line_error(ts, ls, b) is None);
    }
    assert forall|a: int, b: int|
        0 <= a < n && 0 <= b < n && is_start(#[trigger] ls[a]) && is_start(
            #[trigger] ls[b],
        ) implies a == b by {
        assert(line_error(ts, ls, a) is None);
        assert(line_error(ts, ls, b) is None);
    }
    assert forall|i: int| 0 <= i < n && (#[trigger] ls[i]).talker is Some implies exists|j: int|
        0 <= j < ts.len() && (#[trigger] ts[j]).name@ == ls[i].talker->0@ by {
        assert(line_error(ts, ls, i) is None);
        let name = ls[i].talker->0@;
        lemma_talker_index_bounded(ts, name, ts.len() as int);
        lemma_talker_index_found(ts, name, ts.len() as int);
    }
    assert forall|i: int| 0 <= i < n && (#[trigger] ls[i]).next is Some implies has_line(
        ls,
        ls[i].next->0,
    ) by {
        assert(link_error(ls, i) is None);
    }
    assert forall|i: int, k: int|
        0 <= i < n && (#[trigger] ls[i]).next is None && ls[i].choices is Some && 0 <= k
            < ls[i].choices->0@.len() implies has_line(
        ls,
        (#[trigger] ls[i].choices->0@[k]).next,
    ) by {
        assert(link_error(ls, i) is None);
        lemma_choices_clean(ls, ls[i].id, ls[i].choices->0@, ls[i].choices->0@.len() as int);
    }
}

/// A script of one start line without `next` or choices compiles to one
/// node, no edge, with the cursor on that node.
pub proof fn lemma_single_line_compiles(talk: RawTalk)
    requires
        talk.lines@.len() == 1,
        is_start(talk.lines@[0]),
        talk.lines@[0].next is None,
        talk.lines@[0].choices is None,
        talker_known(talk.talkers@, talk.lines@[0]),
    ensures
        script_error(talk) is None,
        edges_upto(talk.lines@, 1) == Seq::<(int, int)>::empty(),
        start_index(talk.lines@) == 0,
{
    let ts = talk.talkers@;
    let ls = talk.lines@;
    assert(line_error(ts, ls, 0) is None);
    assert(scan_error(ts, ls, 0) is None);
    assert(scan_error(ts, ls, 1) is None);
    assert(has_start_before(ls, 1));
    assert(link_error(ls, 0) is None);
    assert(links_error(ls, 0) is None);
    assert(links_error(ls, 1) is None);
    assert(line_edges(ls, 0) =~= Seq::<(int, int)>::empty());
    assert(edges_upto(ls, 1) =~= edges_upto(ls, 0) + line_edges(ls, 0));
    assert(edges_upto(ls, 1) =~= Seq::<(int, int)>::empty());
}

/// A script of one start line whose `next` is its own id compiles to one
/// node with one edge, from that node to itself.
pub proof fn lemma_self_loop_compiles(talk: RawTalk)
    requires
        talk.lines@.len() == 1,
        is_start(talk.lines@[0]),
        talk.lines@[0].next == Some(talk.lines@[0].id),
        talker_known(talk.talkers@, talk.lines@[0]),
    ensures
        script_error(talk) is None,
        edges_upto(talk.lines@, 1) == seq![(0int, 0int)],
        start_index(talk.lines@) == 0,
{
    let ts = talk.talkers@;
    let ls = talk.lines@;
    assert(line_error(ts, ls, 0) is None);
    assert(scan_error(ts, ls, 0) is None);
    assert(scan_error(ts, ls, 1) is None);
    assert(has_start_before(ls, 1));
    assert(has_line(ls, ls[0].id));
    assert(index_of(ls, ls[0].id) == 0);
    assert(link_error(ls, 0) is None);
    assert(links_error(ls, 0) is None);
    assert(links_error(ls, 1) is None);
    assert(line_edges(ls, 0) =~= seq![(0int, 0int)]);
    assert(edges_upto(ls, 1) =~= edges_upto(ls, 0) + line_edges(ls, 0));
    assert(edges_upto(ls, 1) =~= seq![(0int, 0int)]);
}

/// A script of two lines with distinct ids, exactly one of them the start,
/// where the first leads by `next` to the second and the second leads
/// nowhere, compiles to two nodes and one edge, from the first to the second.
pub proof fn lemma_two_linked_lines_compile(talk: RawTalk)
    requires
        talk.lines@.len() == 2,
        talk.lines@[0].id != talk.lines@[1].id,
        is_start(talk.lines@[0]) != is_start(talk.lines@[1]),
        talk.lines@[0].next == Some(talk.lines@[1].id),
        talk.lines@[1].next is None,
        talk.lines@[1].choices is None,
        talker_known(talk.talkers@, talk.lines@[0]),
        talker_known(talk.talkers@, talk.lines@[1]),
    ensures
        script_error(talk) is None,
        edges_upto(talk.lines@, 2) == seq![(0int, 1int)],
{
    let ts = talk.talkers@;
    let ls = talk.lines@;
    assert(line_error(ts, ls, 0) is None);
    assert(line_error(ts, ls, 1) is None);
    assert(scan_error(ts, ls, 0) is None);
    assert(scan_error(ts, ls, 1) is None);
    assert(scan_error(ts, ls, 2) is None);
    if is_start(ls[0]) {
        assert(has_start_before(ls, 2));
    } else {
        assert(is_start(ls[1]));
        assert(has_start_before(ls, 2));
    }
    assert(has_line(ls, ls[1].id));
    assert(index_of(ls, ls[1].id) == 1);
    assert(link_error(ls, 0) is None);
    assert(links_error(ls, 0) is None);
    assert(links_error(ls, 1) is None);
    assert(link_error(ls, 1) is None);
    assert(links_error(ls, 2) is None);
    assert(line_edges(ls, 0) =~= seq![(0int, 1int)]);
    assert(line_edges(ls, 1) =~= Seq::<(int, int)>::empty());
    assert(edges_upto(ls, 1) =~= edges_upto(ls, 0) + line_edges(ls, 0));
    assert(edges_upto(ls, 2) =~= edges_upto(ls, 1) + line_edges(ls, 1));
    assert(edges_upto(ls, 2) =~= seq![(0int, 1int)]);
}

/// A script of three lines with distinct ids, the first the only start and
/// offering two choices that lead to the second and the third, the second
/// leading by `next` to the third, and the third leading nowhere, compiles
/// to three nodes and three edges: one to each choice target, and one from
/// the second line to the third.
pub proof fn lemma_branching_script_compiles(talk: RawTalk)
    requires
        talk.lines@.len() == 3,
        talk.lines@[0].id != talk.lines@[1].id,
        talk.lines@[0].id != talk.lines@[2].id,
        talk.lines@[1].id != talk.lines@[2].id,
        is_start(talk.lines@[0]),
        !is_start(talk.lines@[1]),
        !is_start(talk.lines@[2]),
        talk.lines@[0].next is None,
        talk.lines@[0].choices is Some,
        talk.lines@[0].choices->0@.len() == 2,
        talk.lines@[0].choices->0@[0].next == talk.lines@[1].id,
        talk.lines@[0].choices->0@[1].next == talk.lines@[2].id,
        talk.lines@[1].next == Some(talk.lines@[2].id),
        talk.lines@[2].next is None,
        talk.lines@[2].choices is None,
        talker_known(talk.talkers@, talk.lines@[0]),
        talker_known(talk.talkers@, talk.lines@[1]),
        talker_known(talk.talkers@, talk.lines@[2]),
    ensures
        script_error(talk) is None,
        edges_upto(talk.lines@, 3) == seq![(0int, 1int), (0int, 2int), (1int, 2int)],
        start_index(talk.lines@) == 0,
{
    let ts = talk.talkers@;
    let ls = talk.lines@;
    let cs = ls[0].choices->0@;
    assert(line_error(ts, ls, 0) is None);
    assert(line_error(ts, ls, 1) is None);
    assert(line_error(ts, ls, 2) is None);
    assert(scan_error(ts, ls, 0) is None);
    assert(scan_error(ts, ls, 1) is None);
    assert(scan_error(ts, ls, 2) is None);
    assert(scan_error(ts, ls, 3) is None);
    assert(has_start_before(ls, 3));
    assert(has_line(ls, ls[1].id));
    assert(has_line(ls, ls[2].id));
    assert(index_of(ls, ls[1].id) == 1);
    assert(index_of(ls, ls[2].id) == 2);
    assert(choice_error(ls, ls[0].id, cs, 0) is None);
    assert(choice_error(ls, ls[0].id, cs, 1) is None);
    assert(choice_error(ls, ls[0].id, cs, 2) is None);
    assert(link_error(ls, 0) is None);
    assert(link_error(ls, 1) is None);
    assert(link_error(ls, 2) is None);
    assert(links_error(ls, 0) is None);
    assert(links_error(ls, 1) is None);
    assert(links_error(ls, 2) is None);
    assert(links_error(ls, 3) is None);
    assert(choice_edges(ls, 0, cs) =~= seq![(0int, 1int), (0int, 2int)]);
    assert(line_edges(ls, 0) =~= seq![(0int, 1int), (0int, 2int)]);
    assert(line_edges(ls, 1) =~= seq![(1int, 2int)]);
    assert(line_edges(ls, 2) =~= Seq::<(int, int)>::empty());
    assert(edges_upto(ls, 1) =~= edges_upto(ls, 0) + line_edges(ls, 0));
    assert(edges_upto(ls, 2) =~= edges_upto(ls, 1) + line_edges(ls, 1));
    assert(edges_upto(ls, 3) =~= edges_upto(ls, 2) + line_edges(ls, 2));
    assert(edges_upto(ls, 3) =~= seq![(0int, 1int), (0int, 2int), (1int, 2int)]);
}

/// Every edge of line `i` leaves node `i`.
proof fn lemma_line_edges_source(lines: Seq<DialogueLine>, i: int)
    ensures
        forall|e: int|
            0 <= e < line_edges(lines, i).len() ==> (#[trigger] line_edges(lines, i)[e]).0 == i,
{
}

/// The edges of the first `m` lines start with those of the first `k`, and
/// the ones after leave the lines from `k` on.
pub proof fn lemma_edges_split(lines: Seq<DialogueLine>, k: int, m: int)
    requires
        0 <= k <= m,
    ensures
        edges_upto(lines, k).len() <= edges_upto(lines, m).len(),
        edges_upto(lines, m).subrange(0, edges_upto(lines, k).len() as int) == edges_upto(lines, k),
        forall|e: int|
            edges_upto(lines, k).len() <= e < edges_upto(lines, m).len() ==> k <= (
            #[trigger] edges_upto(lines, m)[e]).0 < m,
    decreases m - k,
{
    if m > k {
        lemma_edges_split(lines, k, m - 1);
        lemma_line_edges_source(lines, m - 1);
        let a = edges_upto(lines, m - 1);
        assert(edges_upto(lines, m) == a + line_edges(lines, m - 1));
        assert(edges_upto(lines, m).subrange(0, edges_upto(lines, k).len() as int) =~= a.subrange(
            0,
            edges_upto(lines, k).len() as int,
        ));
        assert forall|e: int|
            edges_upto(lines, k).len() <= e < edges_upto(lines, m).len() implies k <= (
            #[trigger] edges_upto(lines, m)[e]).0 < m by {
            if e >= a.len() {
                assert(edges_upto(lines, m)[e] == line_edges(lines, m - 1)[e - a.len()]);
            }
        }
    } else {
        assert(edges_upto(lines, m).subrange(0, edges_upto(lines, k).len() as int) =~= edges_upto(
            lines,
            k,
        ));
    }
}

/// The edges of the first `k` lines leave those lines.
pub proof fn lemma_edges_sources(lines: Seq<DialogueLine>, k: int)
    requires
        0 <= k,
    ensures
        forall|e: int|
            0 <= e < edges_upto(lines, k).len() ==> 0 <= (#[trigger] edges_upto(lines, k)[e]).0 < k,
{
    lemma_edges_split(lines, 0, k);
}

} // verus!
