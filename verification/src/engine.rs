//! The event propagation engine: a work-list driven fixed-point evaluator.
//! Pending `(Connection, Event)` pairs are drained in LIFO order; events
//! addressed to the reserved sink id are delivered to the caller, events
//! addressed to a valid cell are dispatched there, and out-of-range cell ids
//! silently drop the event.

use vstd::prelude::*;

use crate::cells::Cell;
use crate::cells::CellModel;
use crate::cells::Connection;
use crate::cells::Event;
use crate::cells::Primitive;
use crate::cells::EXTERNAL_SINK;
use crate::cells::cell_dispatch;
use crate::cells::cell_wf;

verus! {

/// Ceiling on the number of drain iterations of one stimulus. The engine
/// performs no cycle detection; a graph whose cascade needs more dispatches
/// than this (it would run for centuries first) has the remainder of its
/// cascade dropped.
pub const ENGINE_FUEL: u64 = 0xFFFF_FFFF_FFFF_FFFF;

/// One configuration of the engine between drain iterations: the cell
/// states, the pending work list (top of stack last), and the events
/// delivered to the external sink so far, oldest first.
#[verifier::ext_equal]
pub struct Config {
    pub cells: Seq<CellModel>,
    pub stack: Seq<(Connection, Event)>,
    pub out: Seq<(u16, Event)>,
}

/// All cell states of a configuration are well-formed.
pub open spec fn cells_all_wf(cells: Seq<CellModel>) -> bool {
    forall|i: int| 0 <= i < cells.len() ==> cell_wf(#[trigger] cells[i])
}

/// One drain iteration. The most recently queued pair is removed; a sink id
/// delivers the event, a valid cell id dispatches it there and queues the
/// emission in fan-out order, anything else drops it. On an empty work list
/// the configuration is final and the step changes nothing.
pub open spec fn step(c: Config) -> Config {
    if c.stack.len() == 0 {
        c
    } else {
        let (conn, event) = c.stack.last();
        let rest = c.stack.drop_last();
        if conn.cell_id == EXTERNAL_SINK {
            Config { cells: c.cells, stack: rest, out: c.out.push((conn.port, event)) }
        } else if (conn.cell_id as int) < c.cells.len() {
            let r = cell_dispatch(c.cells[conn.cell_id as int], conn.port, event);
            Config {
                cells: c.cells.update(conn.cell_id as int, r.0),
                stack: rest + r.1,
                out: c.out,
            }
        } else {
            Config { cells: c.cells, stack: rest, out: c.out }
        }
    }
}

/// `n` drain iterations.
pub open spec fn steps(c: Config, n: nat) -> Config
    decreases n,
{
    if n == 0 {
        c
    } else {
        step(steps(c, (n - 1) as nat))
    }
}

/// What one stimulus does: from the given cell states and seed work list,
/// drain for the engine's full fuel. Every cascade that terminates at all
/// reaches its fixed point unchanged long before the fuel runs out, so the
/// result is exactly the drained configuration.
pub open spec fn engine_run(cells: Seq<CellModel>, seed: Seq<(Connection, Event)>) -> Config {
    steps(Config { cells, stack: seed, out: Seq::<(u16, Event)>::empty() }, ENGINE_FUEL as nat)
}

/// A final configuration (empty work list) is a fixed point of `step`.
pub proof fn lemma_steps_final(c: Config, n: nat)
    requires
        c.stack.len() == 0,
    ensures
        steps(c, n) == c,
    decreases n,
{
    if n > 0 {
        lemma_steps_final(c, (n - 1) as nat);
    }
}

/// Drain iterations compose: running `m + n` iterations is running `m`, then
/// `n` more.
pub proof fn lemma_steps_add(c: Config, m: nat, n: nat)
    ensures
        steps(c, m + n) == steps(steps(c, m), n),
    decreases n,
{
    if n > 0 {
        lemma_steps_add(c, m, (n - 1) as nat);
        assert(steps(c, m + n) == step(steps(c, (m + n - 1) as nat)));
    }
}

/// The engine is deterministic: the events a stimulus delivers, and the cell
/// states it leaves behind, are a function of the cell states and the seed
/// alone. However many iterations two drains of the same configuration take
/// to reach an empty work list, they end in the same place.
pub proof fn lemma_engine_deterministic(c: Config, n1: nat, n2: nat)
    requires
        steps(c, n1).stack.len() == 0,
        steps(c, n2).stack.len() == 0,
    ensures
        steps(c, n1) == steps(c, n2),
{
    if n1 <= n2 {
        lemma_steps_add(c, n1, (n2 - n1) as nat);
        lemma_steps_final(steps(c, n1), (n2 - n1) as nat);
    } else {
        lemma_steps_add(c, n2, (n1 - n2) as nat);
        lemma_steps_final(steps(c, n2), (n1 - n2) as nat);
    }
}

/// The work list that system initialisation seeds: each cell's startup
/// emission, in declaration order.
pub open spec fn init_stack(cells: Seq<CellModel>) -> Seq<(Connection, Event)>
    decreases cells.len(),
{
    if cells.len() == 0 {
        Seq::<(Connection, Event)>::empty()
    } else {
        init_stack(cells.drop_last()) + crate::cells::cell_init(cells.last())
    }
}

/// The abstract states of a sequence of cells.
pub open spec fn cells_view(cells: Seq<Cell>) -> Seq<CellModel> {
    Seq::new(cells.len(), |i: int| cells[i]@)
}

/// A step keeps every cell state well-formed.
pub proof fn lemma_step_preserves_wf(c: Config)
    requires
        cells_all_wf(c.cells),
    ensures
        cells_all_wf(step(c).cells),
{
    if c.stack.len() > 0 {
        let (conn, event) = c.stack.last();
        if conn.cell_id != EXTERNAL_SINK && (conn.cell_id as int) < c.cells.len() {
            let i = conn.cell_id as int;
            let r = cell_dispatch(c.cells[i], conn.port, event);
            assert(cell_wf(c.cells[i]));
            assert forall|j: int| 0 <= j < step(c).cells.len() implies cell_wf(
                #[trigger] step(c).cells[j],
            ) by {
                if j != i {
                    assert(step(c).cells[j] == c.cells[j]);
                }
            }
        }
    }
}

/// Drains a work list against the cell array until it is empty (or the
/// engine's fuel is spent), returning the events delivered to the external
/// sink in delivery order.
pub(crate) fn drain(cells: &mut Vec<Cell>, seed: Vec<(Connection, Event)>) -> (out: Vec<
    (u16, Event),
>)
    requires
        cells_all_wf(cells_view(old(cells)@)),
    ensures
        cells_all_wf(cells_view(final(cells)@)),
        ({
            let r = engine_run(cells_view(old(cells)@), seed@);
            cells_view(final(cells)@) == r.cells && out@ == r.out
        }),
{
    let ghost c0 = Config {
        cells: cells_view(cells@),
        stack: seed@,
        out: Seq::<(u16, Event)>::empty(),
    };
    let mut stack = seed;
    let mut out: Vec<(u16, Event)> = Vec::new();
    let mut fuel: u64 = ENGINE_FUEL;
    while stack.len() != 0 && fuel != 0
        invariant
            fuel <= ENGINE_FUEL,
            cells_all_wf(cells_view(cells@)),
            steps(c0, (ENGINE_FUEL - fuel) as nat) == (Config {
                cells: cells_view(cells@),
                stack: stack@,
                out: out@,
            }),
        decreases fuel,
    {
        let ghost pre = Config { cells: cells_view(cells@), stack: stack@, out: out@ };
        let (conn, event) = stack.pop().unwrap();
        if conn.cell_id == EXTERNAL_SINK {
            out.push((conn.port, event));
            proof {
                assert(step(pre) =~= (Config {
                    cells: cells_view(cells@),
                    stack: stack@,
                    out: out@,
                }));
            }
        } else if (conn.cell_id as usize) < cells.len() {
            let idx = conn.cell_id as usize;
            let ghost pre_cells = cells_view(cells@);
            assert(cell_wf(pre_cells[idx as int]));
            let emitted = cells[idx].dispatch(conn.port, event);
            proof {
                let new_cells = cells_view(cells@);
                assert(new_cells =~= pre_cells.update(
                    idx as int,
                    cell_dispatch(pre_cells[idx as int], conn.port, event).0,
                ));
                assert forall|j: int| 0 <= j < new_cells.len() implies cell_wf(
                    #[trigger] new_cells[j],
                ) by {
                    if j != idx as int {
                        assert(new_cells[j] == pre_cells[j]);
                        assert(cell_wf(pre_cells[j]));
                    }
                }
                assert(stack@ =~= pre.stack.drop_last() + emitted@.take(0));
            }
            let mut k: usize = 0;
            while k < emitted.len()
                invariant
                    k <= emitted.len(),
                    stack@ == pre.stack.drop_last() + emitted@.take(k as int),
                    cells_all_wf(cells_view(cells@)),
                    cells_view(cells@) == pre_cells.update(
                        idx as int,
                        cell_dispatch(pre_cells[idx as int], conn.port, event).0,
                    ),
                    emitted@ == cell_dispatch(pre_cells[idx as int], conn.port, event).1,
                decreases emitted.len() - k,
            {
                stack.push(emitted[k]);
                proof {
                    assert(stack@ =~= pre.stack.drop_last() + emitted@.take(k + 1));
                }
                k = k + 1;
            }
            proof {
                assert(emitted@.take(emitted@.len() as int) =~= emitted@);
                lemma_step_preserves_wf(pre);
                assert(step(pre) =~= (Config {
                    cells: cells_view(cells@),
                    stack: stack@,
                    out: out@,
                }));
            }
        } else {
            proof {
                assert(step(pre) =~= (Config {
                    cells: cells_view(cells@),
                    stack: stack@,
                    out: out@,
                }));
            }
        }
        fuel = fuel - 1;
    }
    proof {
        let used = (ENGINE_FUEL - fuel) as nat;
        if stack@.len() == 0 {
            lemma_steps_add(c0, used, (fuel as nat));
            lemma_steps_final(steps(c0, used), fuel as nat);
        }
        assert(steps(c0, ENGINE_FUEL as nat) == (Config {
            cells: cells_view(cells@),
            stack: stack@,
            out: out@,
        }));
    }
    out
}

} // verus!
