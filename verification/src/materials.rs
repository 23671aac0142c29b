//! Material resolution: one material per tileset and map instance.
//!
//! A map instance keeps the materials of the tilesets it has met, keyed by
//! the tileset's id. For a map that changed, the instance is asked which
//! tilesets still lack a material; the host loads the textures, builds the
//! materials and hands them back to be cached.

use crate::error::SyncError;
use crate::fixed::Vec3;
use crate::handle::{MapHandle, MaterialHandle};
use crate::map::{TiledMap, Tileset};
use std::collections::HashMap;
use vstd::prelude::*;

verus! {

broadcast use vstd::std_specs::hash::group_hash_axioms;

/// Whether a map instance is placed by the middle of its grid.
#[derive(Clone, Copy, Debug, PartialEq, Eq, Structural)]
pub struct TiledMapCenter(pub bool);

impl Default for TiledMapCenter {
    fn default() -> (c: TiledMapCenter)
        ensures
            !c.0,
    {
        TiledMapCenter(false)
    }
}

/// One placement of a map in the scene.
#[derive(Clone, Debug, PartialEq, Eq)]
pub struct TiledMapComponents {
    pub map_asset: MapHandle,
    /// The materials of this instance, by tileset id.
    pub materials: HashMap<u32, MaterialHandle>,
    /// Where the instance is placed.
    pub origin: Vec3,
    pub center: TiledMapCenter,
}

impl Default for TiledMapComponents {
    fn default() -> (c: TiledMapComponents)
        ensures
            c.map_asset == (MapHandle { id: crate::handle::DEFAULT_HANDLE_ID }),
            c.materials@ == Map::<u32, MaterialHandle>::empty(),
            c.origin == (Vec3 { x: 0, y: 0, z: 0 }),
            !c.center.0,
    {
        TiledMapComponents {
            map_asset: MapHandle::default(),
            materials: HashMap::new(),
            origin: Vec3 { x: 0, y: 0, z: 0 },
            center: TiledMapCenter::default(),
        }
    }
}

/// A material that the host is asked to build: the tileset it is for and
/// the path of the texture to load.
#[derive(Clone, Debug, PartialEq, Eq)]
pub struct MaterialRequest {
    pub tileset_guid: u32,
    pub texture_path: String,
}

impl View for MaterialRequest {
    type V = (u32, Seq<char>);

    open spec fn view(&self) -> (u32, Seq<char>) {
        (self.tileset_guid, self.texture_path@)
    }
}

/// Path of a tileset's texture: the map's image folder, a slash, and the
/// source of the image.
pub open spec fn texture_path(folder: Seq<char>, source: Seq<char>) -> Seq<char> {
    folder + seq!['/'] + source
}

/// The request for the material of a tileset: its id, and the path of its
/// first image.
pub open spec fn request_for(folder: Seq<char>, tileset: Tileset) -> (u32, Seq<char>) {
    (tileset.first_gid, texture_path(folder, tileset.images@[0].source@))
}

/// Whether the ids of the tilesets are all different.
pub open spec fn tileset_ids_unique(tilesets: Seq<Tileset>) -> bool {
    forall|s: int, t: int|
        0 <= s < t < tilesets.len() ==> (#[trigger] tilesets[s]).first_gid
            != (#[trigger] tilesets[t]).first_gid
}

/// The state of a scan over a map's tilesets: the tilesets that have a
/// material or a request by now, and the requests made so far.
pub struct MaterialPlan {
    pub known: Set<u32>,
    pub requests: Seq<(u32, Seq<char>)>,
}

/// The scan after one more tileset. A tileset that is known is passed over.
/// Any other is requested under the path of its first image; without an
/// image there is nothing to load.
pub open spec fn plan_step(plan: MaterialPlan, folder: Seq<char>, tileset: Tileset) -> Result<
    MaterialPlan,
    SyncError,
> {
    if plan.known.contains(tileset.first_gid) {
        Ok(plan)
    } else if tileset.images@.len() == 0 {
        Err(SyncError::MissingImage { tileset_guid: tileset.first_gid })
    } else {
        Ok(
            MaterialPlan {
                known: plan.known.insert(tileset.first_gid),
                requests: plan.requests.push(request_for(folder, tileset)),
            },
        )
    }
}

/// The scan over `tilesets` in order, from the tilesets that `known` holds
/// and no request. It stops at the first tileset that cannot be requested.
pub open spec fn plan_after(known: Set<u32>, folder: Seq<char>, tilesets: Seq<Tileset>) -> Result<
    MaterialPlan,
    SyncError,
>
    decreases tilesets.len(),
{
    if tilesets.len() == 0 {
        Ok(MaterialPlan { known, requests: Seq::empty() })
    } else {
        match plan_after(known, folder, tilesets.drop_last()) {
            Ok(plan) => plan_step(plan, folder, tilesets.last()),
            Err(e) => Err(e),
        }
    }
}

/// The tileset ids of a sequence of requests.
pub open spec fn requested_guids(requests: Seq<(u32, Seq<char>)>) -> Set<u32> {
    Set::new(|guid: u32| exists|k: int| 0 <= k < requests.len() && #[trigger] requests[k].0 == guid)
}

/// The views of a vector of requests.
pub open spec fn request_views(requests: Seq<MaterialRequest>) -> Seq<(u32, Seq<char>)> {
    requests.map_values(|r: MaterialRequest| r@)
}

impl TiledMapComponents {
    /// The materials that this instance lacks for `map`: one request for
    /// each tileset of the map whose id is not in the cache, in the order of
    /// the tilesets, and none twice. The cache is left as it is.
    ///
    /// Fails with `MissingImage` at the first tileset that lacks a material
    /// and names no image.
    pub fn missing_materials(&self, map: &TiledMap) -> (plan: Result<
        Vec<MaterialRequest>,
        SyncError,
    >)
        ensures
            match plan_after(self.materials@.dom(), map.image_folder@, map.map.tilesets@) {
                Ok(p) => plan is Ok && request_views(plan->Ok_0@) == p.requests,
                Err(e) => plan == Err::<Vec<MaterialRequest>, SyncError>(e),
            },
    {
        let mut requests: Vec<MaterialRequest> = Vec::new();
        let mut i: usize = 0;
        let ghost mut scan = MaterialPlan { known: self.materials@.dom(), requests: Seq::empty() };
        while i < map.map.tilesets.len()
            invariant
                i <= map.map.tilesets.len(),
                plan_after(
                    self.materials@.dom(),
                    map.image_folder@,
                    map.map.tilesets@.take(i as int),
                ) == Ok::<MaterialPlan, SyncError>(scan),
                request_views(requests@) == scan.requests,
                scan.known == self.materials@.dom().union(requested_guids(scan.requests)),
            decreases map.map.tilesets.len() - i,
        {
            let ghost head = map.map.tilesets@.take(i + 1);
            proof {
                assert(head.drop_last() == map.map.tilesets@.take(i as int));
                assert(head.last() == map.map.tilesets@[i as int]);
            }
            let tileset = &map.map.tilesets[i];
            let guid: u32 = tileset.first_gid;
            if !self.materials.contains_key(&guid) && !requested(&requests, guid) {
                if tileset.images.len() == 0 {
                    proof {
                        lemma_plan_fails_on(
                            self.materials@.dom(),
                            map.image_folder@,
                            map.map.tilesets@,
                            i as int + 1,
                        );
                    }
                    return Err(SyncError::MissingImage { tileset_guid: guid });
                }
                proof {
                    reveal_strlit("/");
                    assert("/"@ =~= seq!['/']);
                }
                let path = map.image_folder.clone().concat("/").concat(
                    tileset.images[0].source.as_str(),
                );
                let ghost before = scan;
                proof {
                    scan = MaterialPlan {
                        known: before.known.insert(guid),
                        requests: before.requests.push((guid, path@)),
                    };
                    assert(request_views(
                        requests@.push(MaterialRequest { tileset_guid: guid, texture_path: path }),
                    ) =~= scan.requests);
                    lemma_requested_guids_push(before.requests, (guid, path@));
                    assert(scan.known =~= self.materials@.dom().union(
                        requested_guids(scan.requests),
                    ));
                }
                requests.push(MaterialRequest { tileset_guid: guid, texture_path: path });
            }
            i += 1;
        }
        proof {
            assert(map.map.tilesets@.take(i as int) == map.map.tilesets@);
        }
        Ok(requests)
    }

    /// Puts a material into the cache, unless the tileset has one already:
    /// the first material of a tileset stays. Tells whether it was put in.
    pub fn cache_material(&mut self, tileset_guid: u32, material: MaterialHandle) -> (added: bool)
        ensures
            added == !old(self).materials@.contains_key(tileset_guid),
            final(self).materials@ == if added {
                old(self).materials@.insert(tileset_guid, material)
            } else {
                old(self).materials@
            },
            final(self).map_asset == old(self).map_asset,
            final(self).origin == old(self).origin,
            final(self).center == old(self).center,
    {
        if self.materials.contains_key(&tileset_guid) {
            false
        } else {
            self.materials.insert(tileset_guid, material);
            true
        }
    }
}

/// Whether one of the requests is for the tileset `guid`.
fn requested(requests: &Vec<MaterialRequest>, guid: u32) -> (found: bool)
    ensures
        found == requested_guids(request_views(requests@)).contains(guid),
{
    let mut k: usize = 0;
    while k < requests.len()
        invariant
            k <= requests.len(),
            forall|j: int| 0 <= j < k ==> #[trigger] request_views(requests@)[j].0 != guid,
        decreases requests.len() - k,
    {
        if requests[k].tileset_guid == guid {
            assert(request_views(requests@)[k as int].0 == guid);
            return true;
        }
        k += 1;
    }
    false
}

/// One more request adds its tileset to the requested ones, and nothing
/// else.
proof fn lemma_requested_guids_push(requests: Seq<(u32, Seq<char>)>, request: (u32, Seq<char>))
    ensures
        requested_guids(requests.push(request)) == requested_guids(requests).insert(request.0),
{
    let more = requests.push(request);
    assert(more[more.len() - 1].0 == request.0);
    assert forall|g: u32| requested_guids(more).contains(g) implies requested_guids(
        requests,
    ).insert(request.0).contains(g) by {
        let k = choose|k: int| 0 <= k < more.len() && #[trigger] more[k].0 == g;
        if k < requests.len() {
            assert(requests[k].0 == g);
        }
    }
    assert forall|g: u32| requested_guids(requests).contains(g) implies requested_guids(
        more,
    ).contains(g) by {
        let k = choose|k: int| 0 <= k < requests.len() && #[trigger] requests[k].0 == g;
        assert(more[k].0 == g);
    }
    assert(requested_guids(more) =~= requested_guids(requests).insert(request.0));
}

/// A scan that has failed stays failed, with the same error, whatever
/// tilesets follow.
pub proof fn lemma_plan_fails_on(
    known: Set<u32>,
    folder: Seq<char>,
    tilesets: Seq<Tileset>,
    upto: int,
)
    requires
        0 <= upto <= tilesets.len(),
        plan_after(known, folder, tilesets.take(upto)) is Err,
    ensures
        plan_after(known, folder, tilesets) == plan_after(known, folder, tilesets.take(upto)),
    decreases tilesets.len() - upto,
{
    if upto < tilesets.len() {
        let next = tilesets.take(upto + 1);
        assert(next.drop_last() == tilesets.take(upto));
        lemma_plan_fails_on(known, folder, tilesets, upto + 1);
    } else {
        assert(tilesets.take(upto) == tilesets);
    }
}

/// What a finished scan holds: every tileset of the map is known; the
/// known tilesets are those known before and those requested; no request is
/// for a tileset that was known before; and no tileset is requested twice.
pub proof fn lemma_plan_requests(known: Set<u32>, folder: Seq<char>, tilesets: Seq<Tileset>)
    requires
        plan_after(known, folder, tilesets) is Ok,
    ensures
        ({
            let plan = plan_after(known, folder, tilesets)->Ok_0;
            &&& forall|i: int|
                0 <= i < tilesets.len() ==> plan.known.contains(#[trigger] tilesets[i].first_gid)
            &&& plan.known == known.union(requested_guids(plan.requests))
            &&& forall|k: int|
                0 <= k < plan.requests.len() ==> !known.contains(#[trigger] plan.requests[k].0)
            &&& forall|k: int, l: int|
                0 <= k < l < plan.requests.len() ==> #[trigger] plan.requests[k].0
                    != #[trigger] plan.requests[l].0
        }),
    decreases tilesets.len(),
{
    let plan = plan_after(known, folder, tilesets)->Ok_0;
    if tilesets.len() == 0 {
        assert(plan.known =~= known.union(requested_guids(plan.requests)));
    } else {
        let init = tilesets.drop_last();
        let last = tilesets.last();
        lemma_plan_requests(known, folder, init);
        let before = plan_after(known, folder, init)->Ok_0;
        assert forall|i: int| 0 <= i < tilesets.len() implies plan.known.contains(
            #[trigger] tilesets[i].first_gid,
        ) by {
            if i < init.len() {
                assert(before.known.contains(init[i].first_gid));
            }
        }
        if before.known.contains(last.first_gid) {
        } else {
            let guid = last.first_gid;
            lemma_requested_guids_push(before.requests, request_for(folder, last));
            assert(plan.known =~= known.union(requested_guids(plan.requests)));
            assert forall|k: int, l: int| 0 <= k < l < plan.requests.len() implies #[trigger] plan.requests[k].0
                != #[trigger] plan.requests[l].0 by {
                if l == plan.requests.len() - 1 {
                    assert(before.requests[k].0 == plan.requests[k].0);
                    assert(requested_guids(before.requests).contains(before.requests[k].0));
                } else {
                    assert(before.requests[k].0 != before.requests[l].0);
                }
            }
            assert forall|k: int| 0 <= k < plan.requests.len() implies !known.contains(
                #[trigger] plan.requests[k].0,
            ) by {
                if k < before.requests.len() {
                    assert(!known.contains(before.requests[k].0));
                }
            }
        }
    }
}

/// Where no tileset is known, each has an image and an id of its own, the
/// scan requests every tileset of the map, in order.
pub proof fn lemma_plan_of_unknown(known: Set<u32>, folder: Seq<char>, tilesets: Seq<Tileset>)
    requires
        tileset_ids_unique(tilesets),
        forall|i: int|
            0 <= i < tilesets.len() ==> !known.contains((#[trigger] tilesets[i]).first_gid)
                && tilesets[i].images@.len() > 0,
    ensures
        plan_after(known, folder, tilesets) is Ok,
        plan_after(known, folder, tilesets)->Ok_0.requests == tilesets.map_values(
            |tileset: Tileset| request_for(folder, tileset),
        ),
    decreases tilesets.len(),
{
    let all = tilesets.map_values(|tileset: Tileset| request_for(folder, tileset));
    if tilesets.len() == 0 {
        assert(plan_after(known, folder, tilesets)->Ok_0.requests =~= all);
    } else {
        let init = tilesets.drop_last();
        let last = tilesets.last();
        assert forall|i: int| 0 <= i < init.len() implies !known.contains(
            (#[trigger] init[i]).first_gid,
        ) && init[i].images@.len() > 0 by {
            assert(init[i] == tilesets[i]);
        }
        assert forall|s: int, t: int| 0 <= s < t < init.len() implies (#[trigger] init[s]).first_gid
            != (#[trigger] init[t]).first_gid by {
            assert(init[s] == tilesets[s]);
            assert(init[t] == tilesets[t]);
        }
        lemma_plan_of_unknown(known, folder, init);
        lemma_plan_requests(known, folder, init);
        let before = plan_after(known, folder, init)->Ok_0;
        let head = init.map_values(|tileset: Tileset| request_for(folder, tileset));
        assert(!known.contains(tilesets[tilesets.len() - 1].first_gid));
        if requested_guids(before.requests).contains(last.first_gid) {
            let k = choose|k: int|
                0 <= k < before.requests.len() && #[trigger] before.requests[k].0
                    == last.first_gid;
            assert(head[k] == request_for(folder, init[k]));
            assert(tilesets[k].first_gid != tilesets[tilesets.len() - 1].first_gid);
        }
        assert(!before.known.contains(last.first_gid));
        assert(head.push(request_for(folder, last)) =~= all);
    }
}

/// Where every tileset is known, the scan requests nothing.
pub proof fn lemma_plan_of_known(known: Set<u32>, folder: Seq<char>, tilesets: Seq<Tileset>)
    requires
        forall|i: int| 0 <= i < tilesets.len() ==> known.contains(#[trigger] tilesets[i].first_gid),
    ensures
        plan_after(known, folder, tilesets) == Ok::<MaterialPlan, SyncError>(
            MaterialPlan { known, requests: Seq::empty() },
        ),
    decreases tilesets.len(),
{
    if tilesets.len() > 0 {
        let init = tilesets.drop_last();
        assert forall|i: int| 0 <= i < init.len() implies known.contains(
            #[trigger] init[i].first_gid,
        ) by {
            assert(init[i] == tilesets[i]);
        }
        lemma_plan_of_known(known, folder, init);
        assert(known.contains(tilesets[tilesets.len() - 1].first_gid));
    }
}

/// Resolving the materials of a map a second time, once the materials of
/// the first time are in the cache, requests nothing.
pub proof fn lemma_resolve_again(known: Set<u32>, folder: Seq<char>, tilesets: Seq<Tileset>)
    requires
        plan_after(known, folder, tilesets) is Ok,
    ensures
        ({
            let first = plan_after(known, folder, tilesets)->Ok_0;
            let cached = known.union(requested_guids(first.requests));
            plan_after(cached, folder, tilesets) == Ok::<MaterialPlan, SyncError>(
                MaterialPlan { known: cached, requests: Seq::empty() },
            )
        }),
{
    lemma_plan_requests(known, folder, tilesets);
    let first = plan_after(known, folder, tilesets)->Ok_0;
    lemma_plan_of_known(first.known, folder, tilesets);
}

} // verus!
