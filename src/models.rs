//! The model asset each placed object is drawn with.

use vstd::prelude::*;
use crate::populate::{ObjectKind, PlacedObject, content_spec, vegetation_candidates, rock_candidates,
    obstacles_spec, settlement_spec, patrol_spec, clear_in, lemma_clearing_only_removes};
use crate::region::RegionKey;

verus! {

/// The asset path of the model for an object of `kind` and `variant`; `None`
/// where the object has no model asset (rocks are drawn as plain boxes) or the
/// variant is out of range.
pub open spec fn model_path(kind: ObjectKind, variant: u32) -> Option<Seq<char>> {
    match kind {
        ObjectKind::Vegetation => if variant == 0 {
            Some("fantasy_town/tree.glb#Mesh0/Primitive0"@)
        } else if variant == 1 {
            Some("fantasy_town/tree-crooked.glb#Mesh0/Primitive0"@)
        } else if variant == 2 {
            Some("fantasy_town/tree-high.glb#Mesh0/Primitive0"@)
        } else if variant == 3 {
            Some("fantasy_town/tree-high-crooked.glb#Mesh0/Primitive0"@)
        } else if variant == 4 {
            Some("fantasy_town/tree-high-round.glb#Mesh0/Primitive0"@)
        } else {
            None
        },
        ObjectKind::Rock => None,
        ObjectKind::SkyObstacle => if variant == 0 {
            Some("models/obstacles/meteor.glb#Scene0"@)
        } else if variant == 1 {
            Some("models/obstacles/meteor_detailed.glb#Scene0"@)
        } else if variant == 2 {
            Some("models/obstacles/meteor_half.glb#Scene0"@)
        } else {
            None
        },
        ObjectKind::Wall | ObjectKind::CentralStructure => if variant == 0 {
            Some("fantasy_town/wall.glb#Mesh0/Primitive0"@)
        } else {
            None
        },
        ObjectKind::Roof => if variant == 0 {
            Some("fantasy_town/roof-gable.glb#Scene0"@)
        } else {
            None
        },
        ObjectKind::PatrolSpawn => if variant == 0 {
            Some("models/drone.glb#Scene0"@)
        } else {
            None
        },
    }
}

/// The asset path of the model for an object of `kind` and `variant`.
pub fn model_path_of(kind: ObjectKind, variant: u32) -> (r: Option<&'static str>)
    ensures
        r is Some <==> model_path(kind, variant) is Some,
        r matches Some(p) ==> model_path(kind, variant) == Some(p@),
{
    match kind {
        ObjectKind::Vegetation => if variant == 0 {
            Some("fantasy_town/tree.glb#Mesh0/Primitive0")
        } else if variant == 1 {
            Some("fantasy_town/tree-crooked.glb#Mesh0/Primitive0")
        } else if variant == 2 {
            Some("fantasy_town/tree-high.glb#Mesh0/Primitive0")
        } else if variant == 3 {
            Some("fantasy_town/tree-high-crooked.glb#Mesh0/Primitive0")
        } else if variant == 4 {
            Some("fantasy_town/tree-high-round.glb#Mesh0/Primitive0")
        } else {
            None
        },
        ObjectKind::Rock => None,
        ObjectKind::SkyObstacle => if variant == 0 {
            Some("models/obstacles/meteor.glb#Scene0")
        } else if variant == 1 {
            Some("models/obstacles/meteor_detailed.glb#Scene0")
        } else if variant == 2 {
            Some("models/obstacles/meteor_half.glb#Scene0")
        } else {
            None
        },
        ObjectKind::Wall | ObjectKind::CentralStructure => if variant == 0 {
            Some("fantasy_town/wall.glb#Mesh0/Primitive0")
        } else {
            None
        },
        ObjectKind::Roof => if variant == 0 {
            Some("fantasy_town/roof-gable.glb#Scene0")
        } else {
            None
        },
        ObjectKind::PatrolSpawn => if variant == 0 {
            Some("models/drone.glb#Scene0")
        } else {
            None
        },
    }
}

/// Every object placed in a region, rocks aside, has a model asset: the
/// variants drawn for vegetation and sky obstacles stay within their palettes.
pub proof fn lemma_placements_have_models(key: RegionKey)
    ensures
        forall|o: PlacedObject|
            #[trigger] content_spec(key).contains(o) && o.kind != ObjectKind::Rock ==> model_path(
                o.kind,
                o.variant,
            ) is Some,
{
    lemma_clearing_only_removes(key);
    let veg = crate::populate::vegetation_spec(key);
    let rocks = crate::populate::rocks_spec(key);
    let obs = obstacles_spec(key);
    let set = settlement_spec(key);
    let pat = patrol_spec(key);
    assert forall|o: PlacedObject|
        #[trigger] content_spec(key).contains(o) && o.kind != ObjectKind::Rock implies model_path(
            o.kind,
            o.variant,
        ) is Some by {
        let i = choose|i: int| 0 <= i < content_spec(key).len() && content_spec(key)[i] == o;
        let n1 = veg.len() as int;
        let n2 = n1 + rocks.len();
        let n3 = n2 + obs.len();
        let n4 = n3 + set.len();
        if i < n1 {
            assert(veg[i] == o);
            assert(veg.contains(o));
            let j = choose|j: int| 0 <= j < vegetation_candidates(key).len() && vegetation_candidates(key)[j] == o;
        } else if i < n2 {
            assert(rocks[i - n1] == o);
            assert(rocks.contains(o));
            let j = choose|j: int| 0 <= j < rock_candidates(key).len() && rock_candidates(key)[j] == o;
        } else if i < n3 {
            assert(obs[i - n2] == o);
        } else if i < n4 {
            assert(set[i - n3] == o);
        } else {
            assert(pat[i - n4] == o);
        }
    }
}

} // verus!
