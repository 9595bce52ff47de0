//! What a robot can aim at.
use vstd::prelude::*;

verus! {

/// A robot's target.
#[derive(Debug)]
pub enum Target {
    NoTarget,
    Ball,
    NitroPack(i32),
    GoalkeeperPosition,
    Robot(i32),
}

/// The targets offered in a game: the ball, each nitro pack, each opponent, the goalkeeper
/// position, then no target once for every robot.
pub open spec fn targets_of(nitro_pack_ids: Seq<i32>, robots: Seq<(i32, bool)>) -> Seq<Target> {
    seq![Target::Ball].add(nitro_pack_ids.map_values(|id: i32| Target::NitroPack(id))).add(
        robots.filter(|r: (i32, bool)| !r.1).map_values(|r: (i32, bool)| Target::Robot(r.0)),
    ).add(seq![Target::GoalkeeperPosition]).add(Seq::new(robots.len(), |i: int| Target::NoTarget))
}

impl Target {
    /// The targets offered in a game with these nitro packs and these robots, each robot given by
    /// its identifier and whether it is a teammate.
    pub fn generate(nitro_pack_ids: &Vec<i32>, robots: &Vec<(i32, bool)>) -> (r: Vec<Target>)
        ensures
            r@ == targets_of(nitro_pack_ids@, robots@),
    {
        let mut result: Vec<Target> = Vec::new();
        result.push(Target::Ball);
        let mut i: usize = 0;
        while i < nitro_pack_ids.len()
            invariant
                i <= nitro_pack_ids@.len(),
                result@ == seq![Target::Ball].add(
                    nitro_pack_ids@.take(i as int).map_values(|id: i32| Target::NitroPack(id)),
                ),
            decreases nitro_pack_ids@.len() - i,
        {
            result.push(Target::NitroPack(nitro_pack_ids[i]));
            proof {
                assert(nitro_pack_ids@.take(i + 1) == nitro_pack_ids@.take(i as int).push(
                    nitro_pack_ids@[i as int],
                ));
            }
            i = i + 1;
            proof {
                assert(result@ =~= seq![Target::Ball].add(
                    nitro_pack_ids@.take(i as int).map_values(|id: i32| Target::NitroPack(id)),
                ));
            }
        }
        proof {
            assert(nitro_pack_ids@.take(i as int) =~= nitro_pack_ids@);
        }
        let ghost prefix = result@;
        let mut j: usize = 0;
        while j < robots.len()
            invariant
                j <= robots@.len(),
                result@ == prefix.add(
                    robots@.take(j as int).filter(|r: (i32, bool)| !r.1).map_values(
                        |r: (i32, bool)| Target::Robot(r.0),
                    ),
                ),
            decreases robots@.len() - j,
        {
            let (id, is_teammate) = robots[j];
            proof {
                assert(robots@.take(j + 1) =~= robots@.take(j as int).push(robots@[j as int]));
                reveal(Seq::filter);
                assert(robots@.take(j + 1).drop_last() =~= robots@.take(j as int));
                assert(robots@.take(j + 1).last() == robots@[j as int]);
            }
            if !is_teammate {
                result.push(Target::Robot(id));
            }
            j = j + 1;
            proof {
                assert(result@ =~= prefix.add(
                    robots@.take(j as int).filter(|r: (i32, bool)| !r.1).map_values(
                        |r: (i32, bool)| Target::Robot(r.0),
                    ),
                ));
            }
        }
        proof {
            assert(robots@.take(j as int) =~= robots@);
        }
        result.push(Target::GoalkeeperPosition);
        let ghost middle = result@;
        let mut k: usize = 0;
        while k < robots.len()
            invariant
                k <= robots@.len(),
                result@ == middle.add(Seq::new(k as nat, |i: int| Target::NoTarget)),
            decreases robots@.len() - k,
        {
            result.push(Target::NoTarget);
            k = k + 1;
            proof {
                assert(result@ =~= middle.add(Seq::new(k as nat, |i: int| Target::NoTarget)));
            }
        }
        proof {
            assert(result@ =~= targets_of(nitro_pack_ids@, robots@));
        }
        result
    }
}

} // verus!
