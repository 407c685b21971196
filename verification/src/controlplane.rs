//! Control-plane sync helpers: the expectation list lives in a cluster
//! configuration object under a well-known key. Reading the object and
//! watching it are the embedding program's I/O; what to read and what to
//! write is decided here.

use vstd::prelude::*;

use crate::json::{Json, JsonV};
use crate::render::data_key;

verus! {

/// The configuration object key the expectation list is stored under:
/// `mocks.json`.
pub open spec fn mocks_key() -> Seq<u8> {
    seq![109u8, 111u8, 99u8, 107u8, 115u8, 46u8, 106u8, 115u8, 111u8, 110u8]
}

/// First value stored under the key, if any (keys compare exactly).
pub open spec fn pairs_get(d: Seq<(Seq<u8>, Seq<u8>)>, k: Seq<u8>) -> Option<Seq<u8>>
    decreases d.len(),
{
    if d.len() == 0 {
        Option::None
    } else if d[0].0 == k {
        Option::Some(d[0].1)
    } else {
        pairs_get(d.drop_first(), k)
    }
}

/// Picks the expectation text out of a configuration object's data
/// entries: the value under `mocks.json`, if present.
pub fn configmap_mocks<'a>(data: &'a Vec<(Vec<u8>, Vec<u8>)>) -> (r: Option<&'a Vec<u8>>)
    ensures
        match r {
            Option::Some(v) => pairs_get(crate::models::pairs_view(data@), mocks_key())
                == Option::Some(v@),
            Option::None => pairs_get(crate::models::pairs_view(data@), mocks_key()) is None,
        },
{
    let ghost dv = crate::models::pairs_view(data@);
    proof {
        assert(dv.skip(0) =~= dv);
    }
    let mk: [u8; 10] = [109, 111, 99, 107, 115, 46, 106, 115, 111, 110];
    proof {
        assert(mk@ =~= mocks_key());
    }
    let mut i: usize = 0;
    while i < data.len()
        invariant
            i <= data@.len(),
            dv == crate::models::pairs_view(data@),
            dv.len() == data@.len(),
            forall|j: int| 0 <= j < dv.len() ==> dv[j] == (data@[j].0@, data@[j].1@),
            pairs_get(dv, mocks_key()) == pairs_get(dv.skip(i as int), mocks_key()),
        decreases data@.len() - i,
    {
        proof {
            assert(dv.skip(i as int)[0] == dv[i as int]);
            assert(dv.skip(i as int).drop_first() =~= dv.skip(i + 1));
        }
        if crate::text::bytes_eq(data[i].0.as_slice(), mk.as_slice()) {
            return Some(&data[i].1);
        }
        i = i + 1;
    }
    proof {
        assert(dv.skip(i as int) =~= Seq::<(Seq<u8>, Seq<u8>)>::empty());
    }
    None
}

/// The merge patch that publishes the serialized expectation list:
/// `{"data": {"mocks.json": <text>}}`.
pub open spec fn patch_body(mocks_json: Seq<u8>) -> JsonV {
    JsonV::Obj(seq![(data_key(), JsonV::Obj(seq![(mocks_key(), JsonV::Str(mocks_json))]))])
}

/// Builds the merge patch for the configuration object.
pub fn build_configmap_patch(mocks_json: &[u8]) -> (r: Json)
    ensures
        r@ == patch_body(mocks_json@),
{
    let dk: [u8; 4] = [100, 97, 116, 97];
    let mk: [u8; 10] = [109, 111, 99, 107, 115, 46, 106, 115, 111, 110];
    proof {
        assert(dk@ =~= data_key());
        assert(mk@ =~= mocks_key());
    }
    let ghost mj = mocks_json@;
    let mut inner: Vec<(Vec<u8>, Json)> = Vec::new();
    inner.push((vstd::slice::slice_to_vec(mk.as_slice()), Json::Str(vstd::slice::slice_to_vec(
        mocks_json,
    ))));
    let ghost innerv = crate::json::obj_view(inner@);
    proof {
        crate::json::lemma_obj_view(inner@);
        assert(innerv =~~= seq![(mocks_key(), JsonV::Str(mj))]);
    }
    let mut outer: Vec<(Vec<u8>, Json)> = Vec::new();
    outer.push((vstd::slice::slice_to_vec(dk.as_slice()), Json::Obj(inner)));
    proof {
        crate::json::lemma_obj_view(outer@);
        assert(crate::json::obj_view(outer@) =~~= seq![(data_key(), JsonV::Obj(innerv))]);
        assert(JsonV::Obj(crate::json::obj_view(outer@)) =~~= patch_body(mj));
    }
    Json::Obj(outer)
}

} // verus!
