//! Free games on offer (GamerPower): which offers are still active.
use vstd::prelude::*;
use crate::text::eq_str;

verus! {

/// An offer of a free game.
pub struct Giveaway {
    pub id: u32,
    pub title: String,
    pub worth: String,
    pub thumbnail: String,
    pub image: String,
    pub description: String,
    pub instructions: String,
    pub open_giveaway_url: String,
    pub published_date: String,
    pub type_prop: String,
    pub platforms: String,
    pub end_date: Option<String>,
    pub status: String,
}

/// The offers whose status is `Active`, in order (as indices).
pub open spec fn active_spec(g: Seq<Giveaway>, n: nat) -> Seq<int>
    decreases n,
{
    if n == 0 || n > g.len() {
        Seq::empty()
    } else if g[n - 1].status@ == "Active"@ {
        active_spec(g, (n - 1) as nat).push(n - 1)
    } else {
        active_spec(g, (n - 1) as nat)
    }
}

/// The offers that are still active, keeping their order.
pub fn active_giveaways(giveaways: Vec<Giveaway>) -> (r: Vec<Giveaway>)
    ensures
        r@ == active_spec(giveaways@, giveaways@.len()).map_values(|i: int| giveaways@[i]),
{
    let ghost all = giveaways@;
    let mut out: Vec<Giveaway> = Vec::new();
    let mut rest = giveaways;
    let mut i: usize = 0;
    assert(rest@ =~= all.subrange(0, all.len() as int));
    let n = rest.len();
    while rest.len() > 0
        invariant
            n == all.len(),
            i + rest.len() == n,
            rest@ == all.subrange(i as int, all.len() as int),
            out@ == active_spec(all, i as nat).map_values(|k: int| all[k]),
        decreases rest.len(),
    {
        let g = rest.remove(0);
        assert(g == all[i as int]);
        if eq_str(g.status.as_str(), "Active") {
            let ghost before = out@;
            out.push(g);
            assert(out@ =~= active_spec(all, (i + 1) as nat).map_values(|k: int| all[k]));
        } else {
            assert(out@ =~= active_spec(all, (i + 1) as nat).map_values(|k: int| all[k]));
        }
        assert(rest@ =~= all.subrange(i + 1, all.len() as int));
        i = i + 1;
    }
    out
}

} // verus!
