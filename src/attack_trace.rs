use vstd::prelude::*;

use crate::game_state::{indices_of, Position};

verus! {

pub open spec fn on_board(file: int, rank: int) -> bool {
    1 <= file <= 8 && 1 <= rank <= 8
}

pub open spec fn square_of(file: int, rank: int) -> int {
    (file - 1) + (rank - 1) * 8
}

pub open spec fn file_of_square(sq: int) -> int {
    sq % 8 + 1
}

pub open spec fn rank_of_square(sq: int) -> int {
    sq / 8 + 1
}

/// File and rank of a square on the board determine its index and back.
pub proof fn lemma_square_of(file: int, rank: int)
    requires
        on_board(file, rank),
    ensures
        0 <= square_of(file, rank) < 64,
        file_of_square(square_of(file, rank)) == file,
        rank_of_square(square_of(file, rank)) == rank,
{
    assert(file_of_square(square_of(file, rank)) == file) by (nonlinear_arith)
        requires
            1 <= file <= 8,
            1 <= rank <= 8,
    ;
    assert(rank_of_square(square_of(file, rank)) == rank) by (nonlinear_arith)
        requires
            1 <= file <= 8,
            1 <= rank <= 8,
    ;
}

/// The squares met when stepping from (file, rank) by (df, dr), at most `n` steps,
/// until the edge of the board.
pub open spec fn ray_steps(file: int, rank: int, df: int, dr: int, n: nat) -> Seq<int>
    decreases n,
{
    if n == 0 || !on_board(file + df, rank + dr) {
        seq![]
    } else {
        seq![square_of(file + df, rank + dr)] + ray_steps(file + df, rank + dr, df, dr, (n - 1) as nat)
    }
}

/// The ray from square `sq` in direction (df, dr), nearest square first.
pub open spec fn ray(sq: int, df: int, dr: int) -> Seq<int> {
    ray_steps(file_of_square(sq), rank_of_square(sq), df, dr, 8)
}

pub open spec fn rook_rays(sq: int) -> Seq<Seq<int>> {
    seq![ray(sq, 1, 0), ray(sq, -1, 0), ray(sq, 0, 1), ray(sq, 0, -1)]
}

pub open spec fn bishop_rays(sq: int) -> Seq<Seq<int>> {
    seq![ray(sq, 1, 1), ray(sq, -1, -1), ray(sq, -1, 1), ray(sq, 1, -1)]
}

pub open spec fn queen_rays(sq: int) -> Seq<Seq<int>> {
    rook_rays(sq) + bishop_rays(sq)
}

/// A one-square ray to (file + df, rank + dr), or none when that is off the board.
pub open spec fn jump(sq: int, df: int, dr: int) -> Seq<Seq<int>> {
    let f = file_of_square(sq) + df;
    let r = rank_of_square(sq) + dr;
    if on_board(f, r) {
        seq![seq![square_of(f, r)]]
    } else {
        seq![]
    }
}

/// The knight jumps from `sq`, each as a one-square ray, in a fixed order.
pub open spec fn knight_rays(sq: int) -> Seq<Seq<int>> {
    jump(sq, 1, 2) + jump(sq, 1, -2) + jump(sq, -1, 2) + jump(sq, -1, -2) + jump(sq, 2, 1)
        + jump(sq, 2, -1) + jump(sq, -2, 1) + jump(sq, -2, -1)
}

/// A trace as square indices: per square, its rays.
pub open spec fn trace_view(t: Seq<Vec<Vec<Position>>>) -> Seq<Seq<Seq<int>>> {
    t.map_values(|rays: Vec<Vec<Position>>| rays_view(rays@))
}

/// The rays of one square as square indices.
pub open spec fn rays_view(rays: Seq<Vec<Position>>) -> Seq<Seq<int>> {
    rays.map_values(|r: Vec<Position>| indices_of(r@))
}

proof fn lemma_trace_push(
    prev: Seq<Vec<Vec<Position>>>,
    rays: Vec<Vec<Position>>,
    i: int,
    f: spec_fn(int) -> Seq<Seq<int>>,
)
    requires
        0 <= i,
        trace_view(prev) == Seq::new(i as nat, f),
        rays_view(rays@) == f(i),
    ensures
        trace_view(prev.push(rays)) == Seq::new((i + 1) as nat, f),
{
    let t = prev.push(rays);
    assert(trace_view(prev).len() == prev.len());
    assert(prev.len() == i);
    assert forall|j: int| 0 <= j < i + 1 implies #[trigger] trace_view(t)[j] == f(j) by {
        assert(trace_view(t)[j] == rays_view(t[j]@));
        if j < i {
            assert(t[j] == prev[j]);
            assert(trace_view(prev)[j] == rays_view(prev[j]@));
            assert(Seq::new(i as nat, f)[j] == f(j));
        } else {
            assert(t[j] == rays);
        }
    }
    assert(trace_view(t) =~= Seq::new((i + 1) as nat, f));
}

/// The squares from `starting_pos` in direction (df, dr) up to the edge, nearest first.
fn trace_with_delta(starting_pos: Position, delta_file: i8, delta_rank: i8) -> (r: Vec<Position>)
    requires
        -1 <= delta_file <= 1,
        -1 <= delta_rank <= 1,
    ensures
        indices_of(r@) == ray(starting_pos.index(), delta_file as int, delta_rank as int),
{
    let mut trace: Vec<Position> = Vec::new();
    let mut current = starting_pos;
    let mut n: u8 = 8;
    let ghost df = delta_file as int;
    let ghost dr = delta_rank as int;
    let ghost start = starting_pos.index();
    let _ = starting_pos.to_numeric();
    while n > 0
        invariant
            n <= 8,
            0 <= current.index() < 64,
            0 <= start < 64,
            start == starting_pos.index(),
            df == delta_file as int,
            dr == delta_rank as int,
            indices_of(trace@) + ray_steps(
                file_of_square(current.index()),
                rank_of_square(current.index()),
                df,
                dr,
                n as nat,
            ) == ray(start, df, dr),
        decreases n,
    {
        let next = current.delta(delta_file, delta_rank);
        assert(next.is_some() ==> on_board(current.file_of() + delta_file, current.rank_of() + delta_rank));
        assert(next.is_some() ==> on_board(file_of_square(current.index()) + df, rank_of_square(current.index()) + dr));
        assert(next.is_none() ==> !on_board(current.file_of() + delta_file, current.rank_of() + delta_rank));
        match next {
            Some(p) => {
                let ghost before = indices_of(trace@);
                let ghost c = current.index();
                trace.push(p);
                assert(indices_of(trace@) =~= before.push(p.index()));
                proof {
                    lemma_square_of(file_of_square(c) + df, rank_of_square(c) + dr);
                }
                assert(file_of_square(p.index()) == file_of_square(c) + df);
                assert(rank_of_square(p.index()) == rank_of_square(c) + dr);
                assert(indices_of(trace@) + ray_steps(
                    file_of_square(p.index()),
                    rank_of_square(p.index()),
                    df,
                    dr,
                    (n - 1) as nat,
                ) =~= before + ray_steps(
                    file_of_square(c),
                    rank_of_square(c),
                    df,
                    dr,
                    n as nat,
                ));
                current = p;
                n = n - 1;
            },
            None => {
                assert(!on_board(
                    file_of_square(current.index()) + df,
                    rank_of_square(current.index()) + dr,
                ));
                assert(ray_steps(
                    file_of_square(current.index()),
                    rank_of_square(current.index()),
                    df,
                    dr,
                    n as nat,
                ) =~= seq![]);
                assert(indices_of(trace@) =~= indices_of(trace@) + seq![]);
                return trace;
            },
        }
    }
    assert(indices_of(trace@) =~= indices_of(trace@) + seq![]);
    trace
}

/// For every square, the four rook rays: toward higher files, lower files, higher
/// ranks, lower ranks.
pub fn attack_trace_for_rook() -> (r: Vec<Vec<Vec<Position>>>)
    ensures
        trace_view(r@) == Seq::new(64, |sq: int| rook_rays(sq)),
{
    let mut trace: Vec<Vec<Vec<Position>>> = Vec::new();
    let mut i: u8 = 0;
    while i < 64
        invariant
            i <= 64,
            trace_view(trace@) == Seq::new(i as nat, |sq: int| rook_rays(sq)),
        decreases 64 - i,
    {
        let p = Position::from_numeric(i);
        let rays = vec![
            trace_with_delta(p, 1, 0),
            trace_with_delta(p, -1, 0),
            trace_with_delta(p, 0, 1),
            trace_with_delta(p, 0, -1),
        ];
        assert(rays_view(rays@) =~= rook_rays(i as int));
        let ghost prev = trace@;
        proof {
            lemma_trace_push(prev, rays, i as int, |sq: int| rook_rays(sq));
        }
        trace.push(rays);
        i = i + 1;
    }
    trace
}

/// For every square, the four bishop rays.
pub fn attack_trace_for_bishop() -> (r: Vec<Vec<Vec<Position>>>)
    ensures
        trace_view(r@) == Seq::new(64, |sq: int| bishop_rays(sq)),
{
    let mut trace: Vec<Vec<Vec<Position>>> = Vec::new();
    let mut i: u8 = 0;
    while i < 64
        invariant
            i <= 64,
            trace_view(trace@) == Seq::new(i as nat, |sq: int| bishop_rays(sq)),
        decreases 64 - i,
    {
        let p = Position::from_numeric(i);
        let rays = vec![
            trace_with_delta(p, 1, 1),
            trace_with_delta(p, -1, -1),
            trace_with_delta(p, -1, 1),
            trace_with_delta(p, 1, -1),
        ];
        assert(rays_view(rays@) =~= bishop_rays(i as int));
        let ghost prev = trace@;
        proof {
            lemma_trace_push(prev, rays, i as int, |sq: int| bishop_rays(sq));
        }
        trace.push(rays);
        i = i + 1;
    }
    trace
}

/// For every square, the rook rays followed by the bishop rays.
pub fn attack_trace_for_queen() -> (r: Vec<Vec<Vec<Position>>>)
    ensures
        trace_view(r@) == Seq::new(64, |sq: int| queen_rays(sq)),
{
    let mut trace: Vec<Vec<Vec<Position>>> = Vec::new();
    let mut i: u8 = 0;
    while i < 64
        invariant
            i <= 64,
            trace_view(trace@) == Seq::new(i as nat, |sq: int| queen_rays(sq)),
        decreases 64 - i,
    {
        let p = Position::from_numeric(i);
        let mut rays = vec![
            trace_with_delta(p, 1, 0),
            trace_with_delta(p, -1, 0),
            trace_with_delta(p, 0, 1),
            trace_with_delta(p, 0, -1),
        ];
        let mut diagonals = vec![
            trace_with_delta(p, 1, 1),
            trace_with_delta(p, -1, -1),
            trace_with_delta(p, -1, 1),
            trace_with_delta(p, 1, -1),
        ];
        let ghost a = rays@;
        let ghost b = diagonals@;
        rays.append(&mut diagonals);
        assert(rays@ == a + b);
        assert(rays_view(rays@) =~= rays_view(a) + rays_view(b));
        assert(rays_view(rays@) =~= queen_rays(i as int));
        let ghost prev = trace@;
        proof {
            lemma_trace_push(prev, rays, i as int, |sq: int| queen_rays(sq));
        }
        trace.push(rays);
        i = i + 1;
    }
    trace
}

/// Appends the one-square ray to (file + df, rank + dr) when that square is on the board.
pub fn push_jump(rays: &mut Vec<Vec<Position>>, start: Position, df: i8, dr: i8)
    ensures
        rays_view(final(rays)@) == rays_view(old(rays)@) + jump(start.index(), df as int, dr as int),
{
    match start.delta(df, dr) {
        Some(p) => {
            let single = vec![p];
            assert(indices_of(single@) =~= seq![p.index()]);
            rays.push(single);
            assert(rays_view(final(rays)@) =~= rays_view(old(rays)@) + jump(
                start.index(),
                df as int,
                dr as int,
            ));
        },
        None => {
            assert(rays_view(old(rays)@) =~= rays_view(old(rays)@) + jump(
                start.index(),
                df as int,
                dr as int,
            ));
        },
    }
}

/// For every square, the knight jumps that stay on the board, one square per ray.
pub fn attack_trace_for_knight() -> (r: Vec<Vec<Vec<Position>>>)
    ensures
        trace_view(r@) == Seq::new(64, |sq: int| knight_rays(sq)),
{
    let mut trace: Vec<Vec<Vec<Position>>> = Vec::new();
    let mut i: u8 = 0;
    while i < 64
        invariant
            i <= 64,
            trace_view(trace@) == Seq::new(i as nat, |sq: int| knight_rays(sq)),
        decreases 64 - i,
    {
        let p = Position::from_numeric(i);
        let mut rays: Vec<Vec<Position>> = Vec::new();
        assert(rays_view(rays@) =~= seq![]);
        push_jump(&mut rays, p, 1, 2);
        push_jump(&mut rays, p, 1, -2);
        push_jump(&mut rays, p, -1, 2);
        push_jump(&mut rays, p, -1, -2);
        push_jump(&mut rays, p, 2, 1);
        push_jump(&mut rays, p, 2, -1);
        push_jump(&mut rays, p, -2, 1);
        push_jump(&mut rays, p, -2, -1);
        assert(rays_view(rays@) =~= knight_rays(i as int));
        let ghost prev = trace@;
        proof {
            lemma_trace_push(prev, rays, i as int, |sq: int| knight_rays(sq));
        }
        trace.push(rays);
        i = i + 1;
    }
    trace
}

} // verus!
