//! The processes that belong to a service: its own, and those that stem from it.

use vstd::prelude::*;

verus! {

/// A process: its number, that of the process that it stems from, and the memory that it uses.
#[derive(Debug, Clone, Copy, PartialEq, Eq, Structural)]
pub struct ProcessInfo {
    pub pid: u32,
    pub parent: Option<u32>,
    pub memory: u64,
}

/// Whether the one process stems directly from the other.
pub open spec fn is_child(table: Seq<ProcessInfo>, parent: u32, child: u32) -> bool {
    exists|i: int|
        0 <= i < table.len() && (#[trigger] table[i]).pid == child && table[i].parent == Some(
            parent,
        )
}

/// Whether the processes lead from the one to the other, each stemming from the one before it.
pub open spec fn is_line(table: Seq<ProcessInfo>, line: Seq<u32>, root: u32, pid: u32) -> bool {
    &&& line.len() > 0
    &&& line[0] == root
    &&& line.last() == pid
    &&& forall|i: int| 0 < i < line.len() ==> is_child(table, line[i - 1], #[trigger] line[i])
}

/// Whether the process is the root or stems from it.
pub open spec fn stems_from(table: Seq<ProcessInfo>, root: u32, pid: u32) -> bool {
    exists|line: Seq<u32>| is_line(table, line, root, pid)
}

/// The memory of a process; none where there is no such process.
pub open spec fn memory_of(table: Seq<ProcessInfo>, pid: u32) -> nat
    decreases table.len(),
{
    if table.len() == 0 {
        0
    } else if table[0].pid == pid {
        table[0].memory as nat
    } else {
        memory_of(table.drop_first(), pid)
    }
}

/// The memory of some processes together.
pub open spec fn total_memory(table: Seq<ProcessInfo>, pids: Seq<u32>) -> nat
    decreases pids.len(),
{
    if pids.len() == 0 {
        0
    } else {
        total_memory(table, pids.drop_last()) + memory_of(table, pids.last())
    }
}

/// The processes that a table lists.
pub open spec fn listed_pids(table: Seq<ProcessInfo>) -> Seq<u32> {
    table.map_values(|p: ProcessInfo| p.pid)
}

proof fn lemma_root_stems(table: Seq<ProcessInfo>, root: u32)
    ensures
        stems_from(table, root, root),
{
    assert(is_line(table, seq![root], root, root));
}

proof fn lemma_child_stems(table: Seq<ProcessInfo>, root: u32, parent: u32, child: u32)
    requires
        stems_from(table, root, parent),
        is_child(table, parent, child),
    ensures
        stems_from(table, root, child),
{
    let line = choose|line: Seq<u32>| is_line(table, line, root, parent);
    let longer = line.push(child);
    assert forall|i: int| 0 < i < longer.len() implies is_child(
        table,
        longer[i - 1],
        #[trigger] longer[i],
    ) by {
        if i < line.len() {
            assert(longer[i] == line[i]);
        }
    }
    assert(is_line(table, longer, root, child));
}

/// What holds the root, and with a process all that stem directly from it, holds all that stem
/// from the root.
proof fn lemma_closed(table: Seq<ProcessInfo>, root: u32, found: Seq<u32>, line: Seq<u32>, k: int)
    requires
        found.contains(root),
        forall|p: u32, c: u32|
            found.contains(p) && #[trigger] is_child(table, p, c) ==> found.contains(c),
        line.len() > 0,
        line[0] == root,
        forall|i: int| 0 < i < line.len() ==> is_child(table, line[i - 1], #[trigger] line[i]),
        0 <= k < line.len(),
    ensures
        found.contains(line[k]),
    decreases k,
{
    if k > 0 {
        lemma_closed(table, root, found, line, k - 1);
        assert(is_child(table, line[k - 1], line[k]));
    }
}

/// A list without repetitions of processes from the table, and the root, is at most one longer
/// than the table.
proof fn lemma_bounded(table: Seq<ProcessInfo>, root: u32, found: Seq<u32>)
    requires
        found.no_duplicates(),
        forall|i: int|
            0 <= i < found.len() ==> #[trigger] found[i] == root || listed_pids(table).contains(
                found[i],
            ),
    ensures
        found.len() <= table.len() + 1,
{
    let pids = listed_pids(table);
    let all = pids.to_set().insert(root);
    found.unique_seq_to_set();
    pids.lemma_cardinality_of_set();
    assert(found.to_set().subset_of(all));
    vstd::set_lib::lemma_len_subset(found.to_set(), all);
}

/// A process that stems from another is listed.
proof fn lemma_child_is_listed(table: Seq<ProcessInfo>, parent: u32, child: u32)
    requires
        is_child(table, parent, child),
    ensures
        listed_pids(table).contains(child),
{
    let i = choose|i: int|
        0 <= i < table.len() && (#[trigger] table[i]).pid == child && table[i].parent == Some(
            parent,
        );
    assert(listed_pids(table)[i] == child);
}

/// A process of a line is the root or listed.
proof fn lemma_stem_is_listed(table: Seq<ProcessInfo>, root: u32, pid: u32)
    requires
        stems_from(table, root, pid),
    ensures
        pid == root || listed_pids(table).contains(pid),
{
    let line = choose|line: Seq<u32>| is_line(table, line, root, pid);
    let k = line.len() - 1;
    if k > 0 {
        assert(is_child(table, line[k - 1], line[k]));
        lemma_child_is_listed(table, line[k - 1], line[k]);
    }
}

/// What stems from a process that stems from the root stems from the root.
pub proof fn law_stems_are_transitive(table: Seq<ProcessInfo>, root: u32, middle: u32, pid: u32)
    requires
        stems_from(table, root, middle),
        stems_from(table, middle, pid),
    ensures
        stems_from(table, root, pid),
{
    let line = choose|line: Seq<u32>| is_line(table, line, middle, pid);
    lemma_along(table, root, middle, line, line.len() - 1);
}

proof fn lemma_along(table: Seq<ProcessInfo>, root: u32, middle: u32, line: Seq<u32>, k: int)
    requires
        stems_from(table, root, middle),
        line.len() > 0,
        line[0] == middle,
        forall|i: int| 0 < i < line.len() ==> is_child(table, line[i - 1], #[trigger] line[i]),
        0 <= k < line.len(),
    ensures
        stems_from(table, root, line[k]),
    decreases k,
{
    if k > 0 {
        lemma_along(table, root, middle, line, k - 1);
        assert(is_child(table, line[k - 1], line[k]));
        lemma_child_stems(table, root, line[k - 1], line[k]);
    }
}

/// A process uses the memory that the table says, and one that is not in the table uses none.
pub proof fn law_memory_is_what_the_table_says(table: Seq<ProcessInfo>, pid: u32, i: int)
    requires
        0 <= i <= table.len(),
        i < table.len() ==> table[i].pid == pid,
        forall|j: int| 0 <= j < i ==> (#[trigger] table[j]).pid != pid,
    ensures
        i < table.len() ==> memory_of(table, pid) == table[i].memory,
        i == table.len() ==> memory_of(table, pid) == 0,
    decreases i,
{
    if i > 0 {
        let rest = table.drop_first();
        assert(table[0].pid != pid);
        assert forall|j: int| 0 <= j < i - 1 implies (#[trigger] rest[j]).pid != pid by {
            assert(rest[j] == table[j + 1]);
        }
        law_memory_is_what_the_table_says(rest, pid, i - 1);
    }
}

/// What processes use together is the sum of what they use: that of some and that of others, and
/// of one its own. No process uses anything where there is none.
pub proof fn law_memory_adds_up(table: Seq<ProcessInfo>, a: Seq<u32>, b: Seq<u32>, pid: u32)
    ensures
        total_memory(table, a + b) == total_memory(table, a) + total_memory(table, b),
        total_memory(table, seq![pid]) == memory_of(table, pid),
        total_memory(table, Seq::<u32>::empty()) == 0,
    decreases b.len(),
{
    assert(seq![pid].drop_last() =~= Seq::<u32>::empty());
    assert(total_memory(table, Seq::<u32>::empty()) == 0);
    if b.len() == 0 {
        assert(a + b =~= a);
    } else {
        law_memory_adds_up(table, a, b.drop_last(), pid);
        assert((a + b).drop_last() =~= a + b.drop_last());
    }
}

/// The root belongs to its own processes, and with a process each that stems directly from it; no
/// other process does.
pub proof fn law_processes_stem_from_their_parents(
    table: Seq<ProcessInfo>,
    root: u32,
    pid: u32,
    i: int,
)
    ensures
        stems_from(table, root, root),
        0 <= i < table.len() && table[i].parent is Some && stems_from(
            table,
            root,
            table[i].parent->0,
        ) ==> stems_from(table, root, table[i].pid),
        stems_from(table, root, pid) && pid != root ==> exists|k: int|
            0 <= k < table.len() && (#[trigger] table[k]).pid == pid && table[k].parent is Some
                && stems_from(table, root, table[k].parent->0),
{
    lemma_root_stems(table, root);
    if 0 <= i < table.len() && table[i].parent is Some && stems_from(
        table,
        root,
        table[i].parent->0,
    ) {
        assert(is_child(table, table[i].parent->0, table[i].pid));
        lemma_child_stems(table, root, table[i].parent->0, table[i].pid);
    }
    if stems_from(table, root, pid) && pid != root {
        let line = choose|line: Seq<u32>| is_line(table, line, root, pid);
        let last = line.len() - 1;
        assert(last > 0);
        assert(is_child(table, line[last - 1], line[last]));
        let k = choose|k: int|
            0 <= k < table.len() && (#[trigger] table[k]).pid == pid && table[k].parent == Some(
                line[last - 1],
            );
        let front = line.drop_last();
        assert forall|j: int| 0 < j < front.len() implies is_child(
            table,
            front[j - 1],
            #[trigger] front[j],
        ) by {
            assert(front[j] == line[j]);
        }
        assert(is_line(table, front, root, line[last - 1]));
        assert(table[k].pid == pid);
    }
}

/// Whether the list holds the process.
fn holds(pids: &Vec<u32>, pid: u32) -> (r: bool)
    ensures
        r == pids@.contains(pid),
{
    let count = pids.len();
    for i in 0..count
        invariant
            count == pids@.len(),
            forall|j: int| 0 <= j < i ==> pids@[j] != pid,
    {
        if pids[i] == pid {
            assert(pids@[i as int] == pid);
            return true;
        }
    }
    false
}

/// Whether these are the processes of a service: the root and all that stem from it, each once.
pub open spec fn is_tree(table: Seq<ProcessInfo>, root: u32, pids: Seq<u32>) -> bool {
    &&& pids.no_duplicates()
    &&& forall|pid: u32| #[trigger] pids.contains(pid) <==> stems_from(table, root, pid)
}

/// The processes of a service are its own and, with each of them, those that stem from it by the
/// table; a process that does not stem from one of them is not among them.
pub proof fn law_trees_hold_what_stems_from_their_root(
    table: Seq<ProcessInfo>,
    root: u32,
    pids: Seq<u32>,
    i: int,
    pid: u32,
)
    requires
        is_tree(table, root, pids),
    ensures
        pids.contains(root),
        0 <= i < table.len() && table[i].parent is Some && pids.contains(table[i].parent->0)
            ==> pids.contains(table[i].pid),
        pids.contains(pid) && pid != root ==> exists|k: int|
            0 <= k < table.len() && (#[trigger] table[k]).pid == pid && table[k].parent is Some
                && pids.contains(table[k].parent->0),
        forall|a: int, b: int|
            0 <= a < b < pids.len() ==> #[trigger] pids[a] != #[trigger] pids[b],
{
    law_processes_stem_from_their_parents(table, root, pid, i);
    if pids.contains(pid) && pid != root {
        let k = choose|k: int|
            0 <= k < table.len() && (#[trigger] table[k]).pid == pid && table[k].parent is Some
                && stems_from(table, root, table[k].parent->0);
        assert(table[k].pid == pid && pids.contains(table[k].parent->0));
    }
}

/// The root and all processes that stem from it, each once.
pub fn process_tree(table: &Vec<ProcessInfo>, root: u32) -> (r: Vec<u32>)
    ensures
        r@.no_duplicates(),
        forall|pid: u32| #[trigger] r@.contains(pid) <==> stems_from(table@, root, pid),
        is_tree(table@, root, r@),
{
    let mut stack: Vec<u32> = Vec::new();
    stack.push(root);
    let mut visited: Vec<u32> = Vec::new();
    let count = table.len();
    proof {
        lemma_root_stems(table@, root);
        assert(stack@[0] == root);
    }
    while stack.len() > 0
        invariant
            count == table@.len(),
            visited@.no_duplicates(),
            forall|i: int| 0 <= i < visited@.len() ==> stems_from(table@, root, #[trigger] visited@[i]),
            forall|i: int| 0 <= i < stack@.len() ==> stems_from(table@, root, #[trigger] stack@[i]),
            visited@.contains(root) || stack@.contains(root),
            forall|p: u32, c: u32|
                visited@.contains(p) && #[trigger] is_child(table@, p, c) ==> visited@.contains(c)
                    || stack@.contains(c),
            visited@.len() <= count + 1,
        decreases count + 1 - visited@.len(), stack@.len(),
    {
        let ghost before = stack@;
        let ghost seen = visited@;
        let pid = match stack.pop() {
            Some(pid) => pid,
            None => {
                return visited;
            },
        };
        proof {
            assert(before.last() == pid);
            assert(stems_from(table@, root, before[before.len() - 1]));
            assert forall|x: u32| before.contains(x) implies x == pid || stack@.contains(x) by {
                let i = before.index_of(x);
                if i < stack@.len() {
                    assert(stack@[i] == x);
                }
            }
        }
        if holds(&visited, pid) {
            continue;
        }
        visited.push(pid);
        proof {
            assert forall|i: int| 0 <= i < visited@.len() implies #[trigger] visited@[i] == root
                || listed_pids(table@).contains(visited@[i]) by {
                assert(stems_from(table@, root, visited@[i]));
                lemma_stem_is_listed(table@, root, visited@[i]);
            }
            lemma_bounded(table@, root, visited@);
            assert forall|x: u32| seen.contains(x) implies visited@.contains(x) by {
                let i = seen.index_of(x);
                assert(visited@[i] == x);
            }
            assert(visited@[seen.len() as int] == pid);
        }
        let ghost rest = stack@;
        for i in 0..count
            invariant
                count == table@.len(),
                stems_from(table@, root, pid),
                forall|j: int|
                    0 <= j < stack@.len() ==> stems_from(table@, root, #[trigger] stack@[j]),
                forall|x: u32| rest.contains(x) ==> stack@.contains(x),
                forall|j: int|
                    0 <= j < i && (#[trigger] table@[j]).parent == Some(pid) ==> stack@.contains(
                        table@[j].pid,
                    ),
        {
            if table[i].parent == Some(pid) {
                let ghost earlier = stack@;
                stack.push(table[i].pid);
                proof {
                    assert(is_child(table@, pid, table@[i as int].pid));
                    lemma_child_stems(table@, root, pid, table@[i as int].pid);
                    assert forall|x: u32| earlier.contains(x) implies stack@.contains(x) by {
                        let k = earlier.index_of(x);
                        assert(stack@[k] == x);
                    }
                    assert(stack@[earlier.len() as int] == table@[i as int].pid);
                }
            }
        }
        proof {
            assert forall|p: u32, c: u32|
                visited@.contains(p) && #[trigger] is_child(table@, p, c) implies visited@.contains(c)
                || stack@.contains(c) by {
                if p == pid {
                    let j = choose|j: int|
                        0 <= j < table@.len() && (#[trigger] table@[j]).pid == c && table@[j].parent
                            == Some(p);
                    assert(table@[j].parent == Some(pid));
                } else {
                    let k = visited@.index_of(p);
                    assert(seen[k] == p);
                    assert(seen.contains(p));
                    assert(seen.contains(c) || before.contains(c));
                }
            }
            if before.contains(root) {
                assert(root == pid || rest.contains(root));
            }
        }
    }
    proof {
        assert forall|pid: u32| #[trigger] visited@.contains(pid) <==> stems_from(
            table@,
            root,
            pid,
        ) by {
            if visited@.contains(pid) {
                let i = visited@.index_of(pid);
                assert(visited@[i] == pid);
            }
            if stems_from(table@, root, pid) {
                let line = choose|line: Seq<u32>| is_line(table@, line, root, pid);
                assert(visited@.contains(root));
                assert forall|p: u32, c: u32|
                    visited@.contains(p) && #[trigger] is_child(table@, p, c) implies visited@.contains(
                    c,
                ) by {
                    assert(!stack@.contains(c));
                }
                lemma_closed(table@, root, visited@, line, line.len() - 1);
            }
        }
    }
    visited
}

/// The memory of a process; none where there is no such process.
fn memory_at(table: &Vec<ProcessInfo>, pid: u32) -> (r: u64)
    ensures
        r == memory_of(table@, pid),
{
    let count = table.len();
    assert(table@.skip(0) =~= table@);
    for i in 0..count
        invariant
            count == table@.len(),
            memory_of(table@, pid) == memory_of(table@.skip(i as int), pid),
    {
        let ghost rest = table@.skip(i as int);
        assert(rest[0] == table@[i as int]);
        assert(rest.drop_first() =~= table@.skip(i + 1));
        if table[i].pid == pid {
            return table[i].memory;
        }
    }
    0
}

/// The memory of some processes together; nothing where it is more than can be counted.
pub fn memory_total(table: &Vec<ProcessInfo>, pids: &Vec<u32>) -> (r: Option<u64>)
    ensures
        match r {
            Some(total) => total == total_memory(table@, pids@),
            None => total_memory(table@, pids@) > u64::MAX,
        },
{
    let mut total: u64 = 0;
    let count = pids.len();
    assert(pids@.take(count as int) =~= pids@);
    for i in 0..count
        invariant
            count == pids@.len(),
            total == total_memory(table@, pids@.take(i as int)),
    {
        let memory = memory_at(table, pids[i]);
        proof {
            assert(pids@.take(i + 1).drop_last() =~= pids@.take(i as int));
            lemma_total_grows(table@, pids@, i + 1);
        }
        match total.checked_add(memory) {
            Some(sum) => {
                total = sum;
            },
            None => {
                return None;
            },
        }
    }
    Some(total)
}

proof fn lemma_total_grows(table: Seq<ProcessInfo>, pids: Seq<u32>, k: int)
    requires
        0 <= k <= pids.len(),
    ensures
        total_memory(table, pids.take(k)) <= total_memory(table, pids),
    decreases pids.len(),
{
    if k < pids.len() {
        lemma_total_grows(table, pids.drop_last(), k);
        assert(pids.drop_last().take(k) =~= pids.take(k));
    } else {
        assert(pids.take(k) =~= pids);
    }
}

/// The processes of a service, each once, and the memory that they use; no memory is told where
/// it is more than can be counted.
pub fn collect_process_tree_metrics(table: &Vec<ProcessInfo>, root: u32) -> (r: (Vec<u32>, Option<u64>))
    ensures
        r.0@.no_duplicates(),
        forall|pid: u32| #[trigger] r.0@.contains(pid) <==> stems_from(table@, root, pid),
        match r.1 {
            Some(total) => total == total_memory(table@, r.0@),
            None => total_memory(table@, r.0@) > u64::MAX,
        },
        is_tree(table@, root, r.0@),
{
    let pids = process_tree(table, root);
    let memory = memory_total(table, &pids);
    (pids, memory)
}

} // verus!
