use vstd::prelude::*;

use crate::data::Chapter;
use crate::numeral::{chapter_number_spec, get_chapter_number};

verus! {

/// The chapter at `k` is followed by the chapter numbered one higher.
pub open spec fn steps_up(ords: Seq<Option<i32>>, k: int) -> bool {
    &&& ords[k] is Some
    &&& ords[k + 1] is Some
    &&& ords[k + 1]->0 == ords[k]->0 + 1
}

/// `[i, j]` is a run of chapters whose numbers go up by one at each step.
pub open spec fn is_run(ords: Seq<Option<i32>>, i: int, j: int) -> bool {
    &&& 0 <= i <= j < ords.len()
    &&& forall|k: int| i <= k < j ==> #[trigger] steps_up(ords, k)
}

/// Some chapter is followed by the chapter numbered one higher.
pub open spec fn has_step(ords: Seq<Option<i32>>) -> bool {
    exists|k: int| 0 <= k < ords.len() - 1 && #[trigger] steps_up(ords, k)
}

/// `[i, j]` is the longest run, the earliest one among runs of that length.
pub open spec fn is_longest_run(ords: Seq<Option<i32>>, i: int, j: int) -> bool {
    &&& is_run(ords, i, j)
    &&& forall|a: int, b: int| #[trigger] is_run(ords, a, b) ==> b - a <= j - i
    &&& forall|a: int, b: int| #[trigger] is_run(ords, a, b) && b - a == j - i ==> i <= a
}

/// The main range of a book with these chapter numbers: its longest run, or,
/// when no chapter is followed by the next number, the whole book (`(0, 0)`
/// for a book without chapters).
pub open spec fn is_main_range(ords: Seq<Option<i32>>, i: int, j: int) -> bool {
    if has_step(ords) {
        is_longest_run(ords, i, j)
    } else {
        i == 0 && j == if ords.len() == 0 { 0 } else { ords.len() - 1 }
    }
}

/// The main range is fixed by the chapter numbers alone: of runs of equal
/// length the earliest wins, so no two ranges are both the main range.
pub proof fn lemma_main_range_unique(ords: Seq<Option<i32>>, i: int, j: int, i2: int, j2: int)
    requires
        is_main_range(ords, i, j),
        is_main_range(ords, i2, j2),
    ensures
        i == i2,
        j == j2,
{
    if has_step(ords) {
        assert(is_run(ords, i, j));
        assert(is_run(ords, i2, j2));
    }
}

/// Finds the main range of a book from the numbers of its chapters, in one
/// forward scan.
pub fn longest_run(ords: &Vec<Option<i32>>) -> (r: (usize, usize))
    ensures
        is_main_range(ords@, r.0 as int, r.1 as int),
{
    let n = ords.len();
    if n == 0 {
        return (0, 0);
    }
    let mut cur: usize = 0;
    let mut best_i: usize = 0;
    let mut best_j: usize = 0;
    let mut k: usize = 1;
    while k < n
        invariant
            n == ords@.len(),
            1 <= k <= n,
            cur < k,
            is_run(ords@, cur as int, k - 1),
            cur == 0 || !steps_up(ords@, cur - 1),
            is_run(ords@, best_i as int, best_j as int),
            best_j < k,
            forall|a: int, b: int| #[trigger] is_run(ords@, a, b) && b < k ==> b - a <= best_j - best_i && (b - a == best_j - best_i ==> best_i <= a),
            best_i == best_j ==> forall|m: int| 0 <= m < k - 1 ==> !#[trigger] steps_up(ords@, m),
        decreases n - k,
    {
        let up = match (ords[k - 1], ords[k]) {
            (Some(x), Some(y)) => x < i32::MAX && y == x + 1,
            _ => false,
        };
        assert(up == steps_up(ords@, k - 1));
        if !up {
            cur = k;
        }
        assert forall|a: int, b: int| #[trigger] is_run(ords@, a, b) && b == k implies a >= cur by {
            if a < cur {
                assert(steps_up(ords@, cur - 1));
            }
        }
        if k - cur > best_j - best_i {
            best_i = cur;
            best_j = k;
        }
        k = k + 1;
    }
    if best_i == best_j {
        assert(!has_step(ords@));
        (0, n - 1)
    } else {
        assert(has_step(ords@)) by {
            assert(steps_up(ords@, best_i as int));
        }
        (best_i, best_j)
    }
}

/// The chapter numbers of a book, read from its chapter titles.
pub open spec fn chapter_numbers(chapters: Seq<Chapter>) -> Seq<Option<i32>> {
    chapters.map_values(|c: Chapter| chapter_number_spec(c.title@))
}

/// Determines the longest run of chapters whose numbers increase by one, and
/// returns the indices of its first and last chapter (see `is_main_range`).
pub fn get_main_chapter_indices(chapters: &Vec<Chapter>) -> (r: (usize, usize))
    ensures
        is_main_range(chapter_numbers(chapters@), r.0 as int, r.1 as int),
{
    let mut ords: Vec<Option<i32>> = Vec::new();
    let mut i: usize = 0;
    while i < chapters.len()
        invariant
            i <= chapters@.len(),
            ords@ =~= chapter_numbers(chapters@.take(i as int)),
        decreases chapters@.len() - i,
    {
        ords.push(get_chapter_number(chapters[i].title.as_str()));
        i = i + 1;
    }
    assert(chapters@.take(i as int) =~= chapters@);
    longest_run(&ords)
}

} // verus!
