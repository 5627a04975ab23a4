use vstd::prelude::*;
use crate::board::{wf_board, Board, BoardV};
use crate::legal::{spec_legal_moves, spec_move_legal};
use crate::moves::{spec_apply, Move};

verus! {

/// The score below every reachable value, standing in for minus
/// infinity in the alpha-beta window.
pub const VAL_NEG_INF: i64 = i64::MIN;

/// The score above every reachable value, standing in for infinity.
pub const VAL_INF: i64 = i64::MAX;

/// How a search runs: `divide` short-circuits the last ply into a child
/// count (for perft validation), `ab_prune` enables alpha-beta cutoffs,
/// `depth` bounds the recursion.
pub struct SearchSettings {
    pub divide: bool,
    pub ab_prune: bool,
    pub depth: u64,
}

impl SearchSettings {
    /// The settings of a perft run: divide mode, no pruning.
    pub fn divide(depth: u64) -> (r: SearchSettings)
        ensures
            r.divide == true,
            r.ab_prune == false,
            r.depth == depth,
    {
        SearchSettings { divide: true, ab_prune: false, depth }
    }
}

/// The label a search result carries per ply of its best line.
pub struct MoveData {
    pub mv: Move,
}

/// What a search returns: the number of nodes counted, the value of the
/// position, and the best line in child-to-root order (read it back to
/// front for root-to-leaf order).
pub struct AlphaBetaResult {
    pub count: u64,
    pub value: i64,
    pub data: Vec<MoveData>,
}

/// The mathematical counterpart of `AlphaBetaResult`.
#[verifier::ext_equal]
pub struct SearchOut {
    pub count: int,
    pub value: int,
    pub line: Seq<Move>,
}

/// The moves of a best line, stripped of their labels.
pub open spec fn line_of(data: Seq<MoveData>) -> Seq<Move> {
    data.map_values(|md: MoveData| md.mv)
}

/// One recursion of the search, covering both a node (`in_loop` false)
/// and the walk over its children (`in_loop` true, with `ms` the legal
/// moves, `i` the next child, and `value`, `count`, `line` the running
/// state). A node of depth 0 is a leaf worth the constant stub score 1;
/// in divide mode a node one ply up counts its children instead of
/// recursing; otherwise the children are searched left to right,
/// narrowing the window, stopping early on a cutoff when `prune` is
/// set, and a node whose children contributed no nodes falls back to a
/// leaf value with count zero.
pub open spec fn spec_search_rec(
    v: BoardV,
    in_loop: bool,
    ms: Seq<Move>,
    i: int,
    depth: int,
    alpha: int,
    beta: int,
    value: int,
    count: int,
    line: Seq<Move>,
    maxing: bool,
    divide: bool,
    prune: bool,
) -> SearchOut
    decreases depth, (if in_loop {
        ms.len() - i
    } else {
        spec_legal_moves(v).len() as int + 1
    }),
{
    if !in_loop {
        if depth <= 0 {
            SearchOut { count: 1, value: 1, line: Seq::empty() }
        } else if depth == 1 && divide {
            SearchOut { count: spec_legal_moves(v).len() as int, value: 0, line: Seq::empty() }
        } else {
            let lm = spec_legal_moves(v);
            let init: int = if maxing {
                VAL_NEG_INF as int
            } else {
                VAL_INF as int
            };
            let o = spec_search_rec(
                v,
                true,
                lm,
                0,
                depth,
                alpha,
                beta,
                init,
                0,
                Seq::empty(),
                maxing,
                divide,
                prune,
            );
            if o.count == 0 {
                SearchOut { count: 0, value: 1, line: Seq::empty() }
            } else {
                o
            }
        }
    } else {
        if depth <= 0 || i < 0 || i >= ms.len() {
            SearchOut { count, value, line }
        } else {
            let child = spec_apply(v, ms[i]);
            let res = spec_search_rec(
                child,
                false,
                Seq::empty(),
                0,
                depth - 1,
                alpha,
                beta,
                0,
                0,
                Seq::empty(),
                !maxing,
                divide,
                prune,
            );
            if maxing {
                let value2 = if res.value > value {
                    res.value
                } else {
                    value
                };
                let line2 = if res.value > value {
                    res.line.push(ms[i])
                } else {
                    line
                };
                let alpha2 = if value2 > alpha {
                    value2
                } else {
                    alpha
                };
                if value2 >= beta && prune {
                    SearchOut { count, value: value2, line: line2 }
                } else {
                    spec_search_rec(
                        v,
                        true,
                        ms,
                        i + 1,
                        depth,
                        alpha2,
                        beta,
                        value2,
                        count + res.count,
                        line2,
                        maxing,
                        divide,
                        prune,
                    )
                }
            } else {
                let value2 = if res.value < value {
                    res.value
                } else {
                    value
                };
                let line2 = if res.value < value {
                    res.line.push(ms[i])
                } else {
                    line
                };
                let beta2 = if value2 < beta {
                    value2
                } else {
                    beta
                };
                if value2 <= alpha && prune {
                    SearchOut { count, value: value2, line: line2 }
                } else {
                    spec_search_rec(
                        v,
                        true,
                        ms,
                        i + 1,
                        depth,
                        alpha,
                        beta2,
                        value2,
                        count + res.count,
                        line2,
                        maxing,
                        divide,
                        prune,
                    )
                }
            }
        }
    }
}

/// The search result for a node: depth-limited alternating max/min
/// alpha-beta over the tree of legal moves.
pub open spec fn spec_search(
    v: BoardV,
    depth: int,
    alpha: int,
    beta: int,
    maxing: bool,
    divide: bool,
    prune: bool,
) -> SearchOut {
    spec_search_rec(
        v,
        false,
        Seq::empty(),
        0,
        depth,
        alpha,
        beta,
        0,
        0,
        Seq::empty(),
        maxing,
        divide,
        prune,
    )
}

/// The plain node count of an exhaustive (unpruned) search, covering
/// both a node and the sum over its children from child `i` on.
pub open spec fn spec_count_rec(
    v: BoardV,
    in_loop: bool,
    ms: Seq<Move>,
    i: int,
    depth: int,
    divide: bool,
) -> int
    decreases depth, (if in_loop {
        ms.len() - i
    } else {
        spec_legal_moves(v).len() as int + 1
    }),
{
    if !in_loop {
        if depth <= 0 {
            1
        } else if depth == 1 && divide {
            spec_legal_moves(v).len() as int
        } else {
            spec_count_rec(v, true, spec_legal_moves(v), 0, depth, divide)
        }
    } else {
        if depth <= 0 || i < 0 || i >= ms.len() {
            0
        } else {
            spec_count_rec(spec_apply(v, ms[i]), false, Seq::empty(), 0, depth - 1, divide)
                + spec_count_rec(v, true, ms, i + 1, depth, divide)
        }
    }
}

/// The node count of an exhaustive search from `v`: the perft total in
/// divide mode.
pub open spec fn spec_count(v: BoardV, depth: int, divide: bool) -> int {
    spec_count_rec(v, false, Seq::empty(), 0, depth, divide)
}

impl Board {
    /// Whether this node ends the game tree by itself. The engine does
    /// not detect ends of game: the tree ends at depth alone.
    fn is_terminal(&self) -> (r: bool)
        ensures
            r == false,
    {
        false
    }

    /// The leaf score of this node: a constant stub; any real
    /// evaluation is external policy.
    fn score(&self) -> (r: i64)
        ensures
            r == 1,
    {
        1
    }

    /// Searches this position: depth-limited alternating max/min
    /// alpha-beta over the legal-move tree, with the full window.
    pub fn alphabeta(&self, settings: &SearchSettings, max: bool) -> (r: AlphaBetaResult)
        requires
            wf_board(self@),
            self@.halfmove_clock + settings.depth <= u64::MAX,
            self@.fullmoves + settings.depth <= u64::MAX,
            spec_count(self@, settings.depth as int, settings.divide) <= u64::MAX,
        ensures
            ({
                let o = spec_search(
                    self@,
                    settings.depth as int,
                    VAL_NEG_INF as int,
                    VAL_INF as int,
                    max,
                    settings.divide,
                    settings.ab_prune,
                );
                r.count == o.count && r.value == o.value && line_of(r.data@) == o.line
            }),
    {
        alphabeta(self, settings, settings.depth, VAL_NEG_INF, VAL_INF, max)
    }
}

/// Searches `node` to `depth` plies inside the window `alpha..beta`,
/// maximizing when `max` is set, counting nodes, and reporting the best
/// line in child-to-root order.
#[verifier::rlimit(100)]
pub fn alphabeta(
    node: &Board,
    settings: &SearchSettings,
    depth: u64,
    alpha: i64,
    beta: i64,
    max: bool,
) -> (r: AlphaBetaResult)
    requires
        wf_board(node@),
        node@.halfmove_clock + depth <= u64::MAX,
        node@.fullmoves + depth <= u64::MAX,
        spec_count(node@, depth as int, settings.divide) <= u64::MAX,
    ensures
        ({
            let o = spec_search(
                node@,
                depth as int,
                alpha as int,
                beta as int,
                max,
                settings.divide,
                settings.ab_prune,
            );
            r.count == o.count && r.value == o.value && line_of(r.data@) == o.line
        }),
    decreases depth,
{
    let ghost o = spec_search(
        node@,
        depth as int,
        alpha as int,
        beta as int,
        max,
        settings.divide,
        settings.ab_prune,
    );
    if depth == 0 || node.is_terminal() {
        let r = AlphaBetaResult { count: 1, value: node.score(), data: Vec::new() };
        proof {
            assert(line_of(r.data@) =~= o.line);
        }
        return r;
    }
    if depth == 1 && settings.divide {
        let n = node.legal_moves().len();
        proof {
            assert(n as int == spec_legal_moves(node@).len());
            assert(n as int <= u64::MAX);
        }
        let r = AlphaBetaResult { count: n as u64, value: 0, data: Vec::new() };
        proof {
            assert(line_of(r.data@) =~= o.line);
        }
        return r;
    }

    let ms = node.legal_moves();
    let ghost init: int = if max {
        VAL_NEG_INF as int
    } else {
        VAL_INF as int
    };
    let mut value: i64 = if max {
        VAL_NEG_INF
    } else {
        VAL_INF
    };
    let mut count: u64 = 0;
    let mut best: Vec<MoveData> = Vec::new();
    let mut al: i64 = alpha;
    let mut be: i64 = beta;
    let ghost target = spec_search_rec(
        node@,
        true,
        ms@,
        0,
        depth as int,
        alpha as int,
        beta as int,
        init,
        0,
        Seq::empty(),
        max,
        settings.divide,
        settings.ab_prune,
    );
    proof {
        assert(line_of(best@) =~= Seq::<Move>::empty());
        lemma_filter_legal_props(node@, crate::moves::spec_moves(node@, node@.to_move));
        crate::legal::lemma_moves_valid(node@, node@.to_move);
        assert forall|k: int| 0 <= k < ms@.len() implies (#[trigger] ms@[k]).valid() by {
            let all = crate::moves::spec_moves(node@, node@.to_move);
            let j = choose|j: int| 0 <= j < all.len() && all[j] == ms@[k];
        }
        lemma_search_le_count_loop(
            node@,
            ms@,
            0,
            depth as int,
            alpha as int,
            beta as int,
            init,
            0,
            Seq::empty(),
            max,
            settings.divide,
            settings.ab_prune,
        );
    }
    let mut i: usize = 0;
    let mut cut = false;
    while i < ms.len() && !cut
        invariant
            i <= ms.len(),
            wf_board(node@),
            node@.halfmove_clock + depth <= u64::MAX,
            node@.fullmoves + depth <= u64::MAX,
            spec_count(node@, depth as int, settings.divide) <= u64::MAX,
            depth >= 1,
            !(depth == 1 && settings.divide),
            ms@ == spec_legal_moves(node@),
            forall|k: int| 0 <= k < ms@.len() ==> (#[trigger] ms@[k]).valid(),
            forall|k: int| 0 <= k < ms@.len() ==> spec_move_legal(
                node@,
                #[trigger] ms@[k],
                node@.to_move,
            ),
            cut ==> target == (SearchOut {
                count: count as int,
                value: value as int,
                line: line_of(best@),
            }),
            !cut ==> target == spec_search_rec(
                node@,
                true,
                ms@,
                i as int,
                depth as int,
                al as int,
                be as int,
                value as int,
                count as int,
                line_of(best@),
                max,
                settings.divide,
                settings.ab_prune,
            ),
            !cut ==> count + spec_count_rec(
                node@,
                true,
                ms@,
                i as int,
                depth as int,
                settings.divide,
            ) <= spec_count(node@, depth as int, settings.divide),
        decreases ms.len() - i + (if cut {
            0int
        } else {
            1int
        }),
    {
        let m = ms[i];
        let ghost state_line = line_of(best@);
        let child = match node.clone().apply_move(&m) {
            Ok(x) => x,
            Err(_) => {
                proof {
                    assert(false);
                }
                node.clone()
            },
        };
        proof {
            crate::moves::lemma_apply_wf(node@, m);
            lemma_search_le_count_entry(
                child@,
                depth as int - 1,
                al as int,
                be as int,
                !max,
                settings.divide,
                settings.ab_prune,
            );
            lemma_count_rec_nonneg(node@, true, ms@, i as int + 1, depth as int, settings.divide);
            lemma_count_rec_nonneg(
                child@,
                false,
                Seq::empty(),
                0,
                depth as int - 1,
                settings.divide,
            );
        }
        let res = alphabeta(&child, settings, depth - 1, al, be, !max);
        let ghost res_line = line_of(res.data@);
        if max {
            if res.value > value {
                value = res.value;
                best = clone_line(&res.data);
                best.push(MoveData { mv: m });
                proof {
                    assert(line_of(best@) =~= res_line.push(m));
                }
            }
            if value > al {
                al = value;
            }
            if value >= be && settings.ab_prune {
                cut = true;
            } else {
                count = count + res.count;
            }
        } else {
            if res.value < value {
                value = res.value;
                best = clone_line(&res.data);
                best.push(MoveData { mv: m });
                proof {
                    assert(line_of(best@) =~= res_line.push(m));
                }
            }
            if value < be {
                be = value;
            }
            if value <= al && settings.ab_prune {
                cut = true;
            } else {
                count = count + res.count;
            }
        }
        if !cut {
            i = i + 1;
        }
    }
    if count == 0 {
        let r = AlphaBetaResult { count: 0, value: node.score(), data: Vec::new() };
        proof {
            lemma_search_count_lb(
                node@,
                true,
                ms@,
                0,
                depth as int,
                alpha as int,
                beta as int,
                init,
                0,
                Seq::empty(),
                max,
                settings.divide,
                settings.ab_prune,
            );
            assert(line_of(r.data@) =~= o.line);
        }
        return r;
    }
    let r = AlphaBetaResult { count, value, data: best };
    r
}

/// Copies a best line.
fn clone_line(data: &Vec<MoveData>) -> (r: Vec<MoveData>)
    ensures
        r@.len() == data@.len(),
        forall|k: int| 0 <= k < data@.len() ==> #[trigger] r@[k].mv == data@[k].mv,
        line_of(r@) == line_of(data@),
{
    let mut out: Vec<MoveData> = Vec::new();
    let mut i: usize = 0;
    while i < data.len()
        invariant
            i <= data@.len(),
            out@.len() == i,
            forall|k: int| 0 <= k < i ==> #[trigger] out@[k].mv == data@[k].mv,
        decreases data@.len() - i,
    {
        out.push(MoveData { mv: data[i].mv });
        i = i + 1;
    }
    proof {
        assert(line_of(out@) =~= line_of(data@));
    }
    out
}

/// Every element of the legal filter is legal and comes from the
/// filtered sequence.
pub proof fn lemma_filter_legal_props(v: BoardV, ms: Seq<Move>)
    ensures
        forall|k: int| 0 <= k < crate::legal::filter_legal(v, ms).len() ==> spec_move_legal(
            v,
            #[trigger] crate::legal::filter_legal(v, ms)[k],
            v.to_move,
        ),
        forall|k: int| 0 <= k < crate::legal::filter_legal(v, ms).len() ==> ms.contains(
            #[trigger] crate::legal::filter_legal(v, ms)[k],
        ),
    decreases ms.len(),
{
    if ms.len() > 0 {
        lemma_filter_legal_props(v, ms.drop_last());
        let prior = crate::legal::filter_legal(v, ms.drop_last());
        let cur = crate::legal::filter_legal(v, ms);
        assert forall|k: int| 0 <= k < cur.len() implies spec_move_legal(
            v,
            #[trigger] cur[k],
            v.to_move,
        ) && ms.contains(cur[k]) by {
            if k < prior.len() {
                assert(cur[k] == prior[k]);
                assert(ms.drop_last().contains(prior[k]));
                let j = choose|j: int| 0 <= j < ms.drop_last().len() && ms.drop_last()[j]
                    == prior[k];
                assert(ms[j] == prior[k]);
            } else {
                assert(cur[k] == ms.last());
                assert(ms[ms.len() - 1] == ms.last());
            }
        }
    }
}

/// Node counts are never negative.
pub proof fn lemma_count_rec_nonneg(
    v: BoardV,
    in_loop: bool,
    ms: Seq<Move>,
    i: int,
    depth: int,
    divide: bool,
)
    ensures
        spec_count_rec(v, in_loop, ms, i, depth, divide) >= 0,
    decreases depth, (if in_loop {
        ms.len() - i
    } else {
        spec_legal_moves(v).len() as int + 1
    }),
{
    if !in_loop {
        if depth <= 0 {
        } else if depth == 1 && divide {
        } else {
            lemma_count_rec_nonneg(v, true, spec_legal_moves(v), 0, depth, divide);
        }
    } else {
        if depth > 0 && 0 <= i < ms.len() {
            lemma_count_rec_nonneg(spec_apply(v, ms[i]), false, Seq::empty(), 0, depth - 1, divide);
            lemma_count_rec_nonneg(v, true, ms, i + 1, depth, divide);
        }
    }
}

/// A search never counts fewer nodes than its running total.
pub proof fn lemma_search_count_lb(
    v: BoardV,
    in_loop: bool,
    ms: Seq<Move>,
    i: int,
    depth: int,
    alpha: int,
    beta: int,
    value: int,
    count: int,
    line: Seq<Move>,
    maxing: bool,
    divide: bool,
    prune: bool,
)
    ensures
        in_loop ==> spec_search_rec(
            v,
            in_loop,
            ms,
            i,
            depth,
            alpha,
            beta,
            value,
            count,
            line,
            maxing,
            divide,
            prune,
        ).count >= count,
        !in_loop ==> spec_search_rec(
            v,
            in_loop,
            ms,
            i,
            depth,
            alpha,
            beta,
            value,
            count,
            line,
            maxing,
            divide,
            prune,
        ).count >= 0,
    decreases depth, (if in_loop {
        ms.len() - i
    } else {
        spec_legal_moves(v).len() as int + 1
    }),
{
    if !in_loop {
        if depth <= 0 {
        } else if depth == 1 && divide {
        } else {
            let init: int = if maxing {
                VAL_NEG_INF as int
            } else {
                VAL_INF as int
            };
            lemma_search_count_lb(
                v,
                true,
                spec_legal_moves(v),
                0,
                depth,
                alpha,
                beta,
                init,
                0,
                Seq::empty(),
                maxing,
                divide,
                prune,
            );
        }
    } else {
        if depth > 0 && 0 <= i < ms.len() {
            let child = spec_apply(v, ms[i]);
            lemma_search_count_lb(
                child,
                false,
                Seq::empty(),
                0,
                depth - 1,
                alpha,
                beta,
                0,
                0,
                Seq::empty(),
                !maxing,
                divide,
                prune,
            );
            let res = spec_search_rec(
                child,
                false,
                Seq::empty(),
                0,
                depth - 1,
                alpha,
                beta,
                0,
                0,
                Seq::empty(),
                !maxing,
                divide,
                prune,
            );
            if maxing {
                let value2 = if res.value > value {
                    res.value
                } else {
                    value
                };
                let line2 = if res.value > value {
                    res.line.push(ms[i])
                } else {
                    line
                };
                let alpha2 = if value2 > alpha {
                    value2
                } else {
                    alpha
                };
                if value2 >= beta && prune {
                } else {
                    lemma_search_count_lb(
                        v,
                        true,
                        ms,
                        i + 1,
                        depth,
                        alpha2,
                        beta,
                        value2,
                        count + res.count,
                        line2,
                        maxing,
                        divide,
                        prune,
                    );
                }
            } else {
                let value2 = if res.value < value {
                    res.value
                } else {
                    value
                };
                let line2 = if res.value < value {
                    res.line.push(ms[i])
                } else {
                    line
                };
                let beta2 = if value2 < beta {
                    value2
                } else {
                    beta
                };
                if value2 <= alpha && prune {
                } else {
                    lemma_search_count_lb(
                        v,
                        true,
                        ms,
                        i + 1,
                        depth,
                        alpha,
                        beta2,
                        value2,
                        count + res.count,
                        line2,
                        maxing,
                        divide,
                        prune,
                    );
                }
            }
        }
    }
}

/// A search from a loop state never counts more nodes than the running
/// total plus the exhaustive count of the remaining children.
pub proof fn lemma_search_le_count_loop(
    v: BoardV,
    ms: Seq<Move>,
    i: int,
    depth: int,
    alpha: int,
    beta: int,
    value: int,
    count: int,
    line: Seq<Move>,
    maxing: bool,
    divide: bool,
    prune: bool,
)
    ensures
        spec_search_rec(
            v,
            true,
            ms,
            i,
            depth,
            alpha,
            beta,
            value,
            count,
            line,
            maxing,
            divide,
            prune,
        ).count <= count + spec_count_rec(v, true, ms, i, depth, divide),
    decreases depth, ms.len() - i, 1int,
{
    if depth > 0 && 0 <= i < ms.len() {
        let child = spec_apply(v, ms[i]);
        lemma_search_le_count_entry(child, depth - 1, alpha, beta, !maxing, divide, prune);
        lemma_count_rec_nonneg(child, false, Seq::empty(), 0, depth - 1, divide);
        lemma_count_rec_nonneg(v, true, ms, i + 1, depth, divide);
        let res = spec_search_rec(
            child,
            false,
            Seq::empty(),
            0,
            depth - 1,
            alpha,
            beta,
            0,
            0,
            Seq::empty(),
            !maxing,
            divide,
            prune,
        );
        if maxing {
            let value2 = if res.value > value {
                res.value
            } else {
                value
            };
            let line2 = if res.value > value {
                res.line.push(ms[i])
            } else {
                line
            };
            let alpha2 = if value2 > alpha {
                value2
            } else {
                alpha
            };
            if value2 >= beta && prune {
            } else {
                lemma_search_le_count_loop(
                    v,
                    ms,
                    i + 1,
                    depth,
                    alpha2,
                    beta,
                    value2,
                    count + res.count,
                    line2,
                    maxing,
                    divide,
                    prune,
                );
            }
        } else {
            let value2 = if res.value < value {
                res.value
            } else {
                value
            };
            let line2 = if res.value < value {
                res.line.push(ms[i])
            } else {
                line
            };
            let beta2 = if value2 < beta {
                value2
            } else {
                beta
            };
            if value2 <= alpha && prune {
            } else {
                lemma_search_le_count_loop(
                    v,
                    ms,
                    i + 1,
                    depth,
                    alpha,
                    beta2,
                    value2,
                    count + res.count,
                    line2,
                    maxing,
                    divide,
                    prune,
                );
            }
        }
    }
}

/// A search never counts more nodes than the exhaustive count.
pub proof fn lemma_search_le_count_entry(
    v: BoardV,
    depth: int,
    alpha: int,
    beta: int,
    maxing: bool,
    divide: bool,
    prune: bool,
)
    ensures
        spec_search(v, depth, alpha, beta, maxing, divide, prune).count <= spec_count(
            v,
            depth,
            divide,
        ),
        spec_search(v, depth, alpha, beta, maxing, divide, prune).count >= 0,
    decreases depth, spec_legal_moves(v).len() as int + 1, 2int,
{
    lemma_search_count_lb(
        v,
        false,
        Seq::empty(),
        0,
        depth,
        alpha,
        beta,
        0,
        0,
        Seq::empty(),
        maxing,
        divide,
        prune,
    );
    if depth <= 0 {
    } else if depth == 1 && divide {
    } else {
        let init: int = if maxing {
            VAL_NEG_INF as int
        } else {
            VAL_INF as int
        };
        lemma_search_le_count_loop(
            v,
            spec_legal_moves(v),
            0,
            depth,
            alpha,
            beta,
            init,
            0,
            Seq::empty(),
            maxing,
            divide,
            prune,
        );
        lemma_count_rec_nonneg(v, true, spec_legal_moves(v), 0, depth, divide);
    }
}


/// The initial running value of a node: the worst score for the player
/// at turn.
pub open spec fn init_value(maxing: bool) -> int {
    if maxing {
        VAL_NEG_INF as int
    } else {
        VAL_INF as int
    }
}

/// Outside divide mode every node is worth the constant stub score:
/// the walk over the children either keeps the running value or lands
/// on 1.
proof fn lemma_value_one_loop(
    v: BoardV,
    ms: Seq<Move>,
    i: int,
    depth: int,
    alpha: int,
    beta: int,
    value: int,
    count: int,
    line: Seq<Move>,
    maxing: bool,
    prune: bool,
)
    requires
        value == 1 || value == init_value(maxing),
    ensures
        ({
            let o = spec_search_rec(
                v,
                true,
                ms,
                i,
                depth,
                alpha,
                beta,
                value,
                count,
                line,
                maxing,
                false,
                prune,
            );
            o.value == 1 || (o.value == value && o.count == count)
        }),
    decreases depth, ms.len() - i, 0int,
{
    if depth > 0 && 0 <= i < ms.len() {
        let child = spec_apply(v, ms[i]);
        lemma_value_one_entry(child, depth - 1, alpha, beta, !maxing, prune);
        let res = spec_search_rec(
            child,
            false,
            Seq::empty(),
            0,
            depth - 1,
            alpha,
            beta,
            0,
            0,
            Seq::empty(),
            !maxing,
            false,
            prune,
        );
        if maxing {
            let value2 = if res.value > value {
                res.value
            } else {
                value
            };
            let line2 = if res.value > value {
                res.line.push(ms[i])
            } else {
                line
            };
            let alpha2 = if value2 > alpha {
                value2
            } else {
                alpha
            };
            if value2 >= beta && prune {
            } else {
                lemma_value_one_loop(
                    v,
                    ms,
                    i + 1,
                    depth,
                    alpha2,
                    beta,
                    value2,
                    count + res.count,
                    line2,
                    maxing,
                    prune,
                );
            }
        } else {
            let value2 = if res.value < value {
                res.value
            } else {
                value
            };
            let line2 = if res.value < value {
                res.line.push(ms[i])
            } else {
                line
            };
            let beta2 = if value2 < beta {
                value2
            } else {
                beta
            };
            if value2 <= alpha && prune {
            } else {
                lemma_value_one_loop(
                    v,
                    ms,
                    i + 1,
                    depth,
                    alpha,
                    beta2,
                    value2,
                    count + res.count,
                    line2,
                    maxing,
                    prune,
                );
            }
        }
    }
}

/// Outside divide mode the value a search returns is the constant stub
/// score, whatever the window, turn or pruning.
pub proof fn lemma_value_one_entry(
    v: BoardV,
    depth: int,
    alpha: int,
    beta: int,
    maxing: bool,
    prune: bool,
)
    ensures
        spec_search(v, depth, alpha, beta, maxing, false, prune).value == 1,
    decreases depth, spec_legal_moves(v).len() as int + 1, 1int,
{
    if depth <= 0 {
    } else {
        lemma_value_one_loop(
            v,
            spec_legal_moves(v),
            0,
            depth,
            alpha,
            beta,
            init_value(maxing),
            0,
            Seq::empty(),
            maxing,
            prune,
        );
        let o = spec_search_rec(
            v,
            true,
            spec_legal_moves(v),
            0,
            depth,
            alpha,
            beta,
            init_value(maxing),
            0,
            Seq::empty(),
            maxing,
            false,
            prune,
        );
        if o.count != 0 {
            assert(o.value == 1 || (o.value == init_value(maxing) && o.count == 0));
        }
    }
}

/// Without pruning the walk over the children counts every node of
/// every remaining child.
proof fn lemma_exact_count_loop(
    v: BoardV,
    ms: Seq<Move>,
    i: int,
    depth: int,
    alpha: int,
    beta: int,
    value: int,
    count: int,
    line: Seq<Move>,
    maxing: bool,
    divide: bool,
)
    ensures
        spec_search_rec(
            v,
            true,
            ms,
            i,
            depth,
            alpha,
            beta,
            value,
            count,
            line,
            maxing,
            divide,
            false,
        ).count == count + spec_count_rec(v, true, ms, i, depth, divide),
    decreases depth, ms.len() - i, 0int,
{
    if depth > 0 && 0 <= i < ms.len() {
        let child = spec_apply(v, ms[i]);
        lemma_exact_count_entry(child, depth - 1, alpha, beta, !maxing, divide);
        let res = spec_search_rec(
            child,
            false,
            Seq::empty(),
            0,
            depth - 1,
            alpha,
            beta,
            0,
            0,
            Seq::empty(),
            !maxing,
            divide,
            false,
        );
        if maxing {
            let value2 = if res.value > value {
                res.value
            } else {
                value
            };
            let line2 = if res.value > value {
                res.line.push(ms[i])
            } else {
                line
            };
            let alpha2 = if value2 > alpha {
                value2
            } else {
                alpha
            };
            lemma_exact_count_loop(
                v,
                ms,
                i + 1,
                depth,
                alpha2,
                beta,
                value2,
                count + res.count,
                line2,
                maxing,
                divide,
            );
        } else {
            let value2 = if res.value < value {
                res.value
            } else {
                value
            };
            let line2 = if res.value < value {
                res.line.push(ms[i])
            } else {
                line
            };
            let beta2 = if value2 < beta {
                value2
            } else {
                beta
            };
            lemma_exact_count_loop(
                v,
                ms,
                i + 1,
                depth,
                alpha,
                beta2,
                value2,
                count + res.count,
                line2,
                maxing,
                divide,
            );
        }
    }
}

/// Without pruning a search counts exactly the exhaustive node count.
pub proof fn lemma_exact_count_entry(
    v: BoardV,
    depth: int,
    alpha: int,
    beta: int,
    maxing: bool,
    divide: bool,
)
    ensures
        spec_search(v, depth, alpha, beta, maxing, divide, false).count == spec_count(
            v,
            depth,
            divide,
        ),
    decreases depth, spec_legal_moves(v).len() as int + 1, 1int,
{
    if depth <= 0 {
    } else if depth == 1 && divide {
    } else {
        lemma_exact_count_loop(
            v,
            spec_legal_moves(v),
            0,
            depth,
            alpha,
            beta,
            init_value(maxing),
            0,
            Seq::empty(),
            maxing,
            divide,
        );
    }
}

/// Alpha-beta equivalence, outside divide mode: with pruning enabled or
/// disabled the value returned for the same position, depth and window
/// is identical, and the pruned search never counts more nodes than the
/// unpruned one.
pub proof fn lemma_pruning_equivalence(
    v: BoardV,
    depth: int,
    alpha: int,
    beta: int,
    maxing: bool,
)
    ensures
        spec_search(v, depth, alpha, beta, maxing, false, true).value == spec_search(
            v,
            depth,
            alpha,
            beta,
            maxing,
            false,
            false,
        ).value,
        spec_search(v, depth, alpha, beta, maxing, false, true).count <= spec_search(
            v,
            depth,
            alpha,
            beta,
            maxing,
            false,
            false,
        ).count,
{
    lemma_value_one_entry(v, depth, alpha, beta, maxing, true);
    lemma_value_one_entry(v, depth, alpha, beta, maxing, false);
    lemma_search_le_count_entry(v, depth, alpha, beta, maxing, false, true);
    lemma_exact_count_entry(v, depth, alpha, beta, maxing, false);
}

} // verus!
