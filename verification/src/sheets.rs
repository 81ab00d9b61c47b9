use vstd::prelude::*;

verus! {

/// One balance sheet, reduced to what the engine reads: the year it tracks.
pub struct BalanceSheet {
    pub id: u64,
    pub year: i32,
}

pub struct BalanceSheetService;

impl BalanceSheetService {
    /// The distinct years referenced by the balance sheets, in order of
    /// first appearance.
    pub fn years_of(sheets: &Vec<BalanceSheet>) -> (r: Vec<i32>)
        ensures
            forall|y: i32| r@.contains(y) <==> exists|i: int|
                0 <= i < sheets@.len() && (#[trigger] sheets@[i]).year == y,
            forall|i: int, j: int| 0 <= i < j < r@.len() ==> r@[i] != r@[j],
    {
        let mut out: Vec<i32> = Vec::new();
        let n = sheets.len();
        let mut i: usize = 0;
        while i < n
            invariant
                n == sheets@.len(),
                0 <= i <= n,
                forall|y: i32| out@.contains(y) <==> exists|k: int|
                    0 <= k < i && (#[trigger] sheets@[k]).year == y,
                forall|p: int, q: int| 0 <= p < q < out@.len() ==> out@[p] != out@[q],
            decreases n - i,
        {
            let y = sheets[i].year;
            let ghost prev = out@;
            if !contains_year(&out, y) {
                out.push(y);
                proof {
                    assert(out@[out@.len() - 1] == y);
                    assert forall|y2: i32| prev.contains(y2) implies out@.contains(y2) by {
                        let p = choose|p: int| 0 <= p < prev.len() && prev[p] == y2;
                        assert(out@[p] == y2);
                    }
                    assert forall|y2: i32| out@.contains(y2) implies (prev.contains(y2) || y2
                        == y) by {
                        let p = choose|p: int| 0 <= p < out@.len() && out@[p] == y2;
                        if p < prev.len() {
                            assert(prev[p] == y2);
                        }
                    }
                }
            }
            proof {
                assert(sheets@[i as int].year == y);
                assert(out@.contains(y));
                assert forall|y2: i32| out@.contains(y2) implies exists|k: int|
                    0 <= k < i + 1 && (#[trigger] sheets@[k]).year == y2 by {
                    if prev.contains(y2) {
                        let k = choose|k: int| 0 <= k < i && (#[trigger] sheets@[k]).year == y2;
                        assert(0 <= k < i + 1 && sheets@[k].year == y2);
                    } else {
                        assert(sheets@[i as int].year == y2);
                    }
                }
                assert forall|y2: i32| (exists|k: int|
                    0 <= k < i + 1 && (#[trigger] sheets@[k]).year == y2) implies out@.contains(
                    y2,
                ) by {
                    let k = choose|k: int| 0 <= k < i + 1 && (#[trigger] sheets@[k]).year == y2;
                    if k < i {
                        assert(prev.contains(y2));
                    }
                }
            }
            i += 1;
        }
        out
    }
}

fn contains_year(v: &Vec<i32>, y: i32) -> (b: bool)
    ensures
        b == v@.contains(y),
{
    let n = v.len();
    let mut i: usize = 0;
    while i < n
        invariant
            n == v@.len(),
            0 <= i <= n,
            forall|k: int| 0 <= k < i ==> v@[k] != y,
        decreases n - i,
    {
        if v[i] == y {
            return true;
        }
        i += 1;
    }
    false
}

} // verus!
