//! The unifier's connections document: for each alias, a source, a destination and the
//! domains to merge.

use vstd::prelude::*;
use crate::error::StoreError;
use crate::json::{get_member, lemma_members_view, member, mview, Json, JsonV};

verus! {

/// One block of the connections document.
pub struct ConfigConnection {
    pub source_db_uri: String,
    pub dest_db_uri: String,
    /// Domain database name and the event namespace read from it.
    pub domains: Vec<(String, String)>,
}

pub struct ConfigV {
    pub source_db_uri: Seq<char>,
    pub dest_db_uri: Seq<char>,
    pub domains: Seq<(Seq<char>, Seq<char>)>,
}

impl View for ConfigConnection {
    type V = ConfigV;

    open spec fn view(&self) -> ConfigV {
        ConfigV {
            source_db_uri: self.source_db_uri@,
            dest_db_uri: self.dest_db_uri@,
            domains: domain_pairs(self.domains@),
        }
    }
}

pub open spec fn domain_pairs(v: Seq<(String, String)>) -> Seq<(Seq<char>, Seq<char>)> {
    v.map_values(|d: (String, String)| (d.0@, d.1@))
}

/// Each member's name and the text it holds.
pub open spec fn text_pairs(ms: Seq<(Seq<char>, JsonV)>) -> Seq<(Seq<char>, Seq<char>)> {
    ms.map_values(|m: (Seq<char>, JsonV)| (m.0, m.1->Str_0))
}

/// Every member holds a string.
pub open spec fn all_texts(ms: Seq<(Seq<char>, JsonV)>) -> bool {
    forall|i: int| 0 <= i < ms.len() ==> (#[trigger] ms[i]).1 is Str
}

/// The block `alias` of a connections document, if it is well-formed: an object whose member
/// `alias` is an object with string members `source_db_uri` and `dest_db_uri` and an object
/// `domains` of strings.
pub open spec fn connection_of(doc: JsonV, alias: Seq<char>) -> Option<ConfigV> {
    match doc {
        JsonV::Object(top) => match member(top, alias) {
            Some(JsonV::Object(block)) => match (
                member(block, "source_db_uri"@),
                member(block, "dest_db_uri"@),
                member(block, "domains"@),
            ) {
                (Some(JsonV::Str(src)), Some(JsonV::Str(dst)), Some(JsonV::Object(ds))) => if all_texts(ds) {
                    Some(
                        ConfigV {
                            source_db_uri: src,
                            dest_db_uri: dst,
                            domains: text_pairs(ds),
                        },
                    )
                } else {
                    None
                },
                _ => None,
            },
            _ => None,
        },
        _ => None,
    }
}

/// Reads the block `alias` of a connections document; `Config` if it is missing or malformed.
pub fn load_connection(doc: &Json, alias: &str) -> (r: Result<ConfigConnection, StoreError>)
    ensures
        match connection_of(doc@, alias@) {
            Some(c) => r matches Ok(x) && x@ == c,
            None => r == Err::<ConfigConnection, StoreError>(StoreError::Config),
        },
{
    let top = match doc {
        Json::Object(top) => top,
        _ => return Err(StoreError::Config),
    };
    let block = match get_member(top, alias) {
        Some(Json::Object(block)) => block,
        _ => return Err(StoreError::Config),
    };
    let source_db_uri = match get_member(block, "source_db_uri") {
        Some(Json::Str(s)) => s.clone(),
        _ => return Err(StoreError::Config),
    };
    let dest_db_uri = match get_member(block, "dest_db_uri") {
        Some(Json::Str(s)) => s.clone(),
        _ => return Err(StoreError::Config),
    };
    let ds = match get_member(block, "domains") {
        Some(Json::Object(ds)) => ds,
        _ => return Err(StoreError::Config),
    };
    proof {
        lemma_members_view(*ds, ds@.len());
    }
    let ghost dv = mview(*ds);
    proof {
        assert(connection_of(doc@, alias@) == if all_texts(dv) {
            Some(
                ConfigV {
                    source_db_uri: source_db_uri@,
                    dest_db_uri: dest_db_uri@,
                    domains: text_pairs(dv),
                },
            )
        } else {
            None::<ConfigV>
        });
    }
    let mut domains: Vec<(String, String)> = Vec::new();
    let mut i: usize = 0;
    while i < ds.len()
        invariant
            i <= ds@.len(),
            domains@.len() == i,
            dv == mview(*ds),
            dv.len() == ds@.len(),
            connection_of(doc@, alias@) == if all_texts(dv) {
                Some(
                    ConfigV {
                        source_db_uri: source_db_uri@,
                        dest_db_uri: dest_db_uri@,
                        domains: text_pairs(dv),
                    },
                )
            } else {
                None::<ConfigV>
            },
            forall|j: int| 0 <= j < ds@.len() ==> #[trigger] dv[j] == (ds@[j].0@, ds@[j].1@),
            forall|j: int| 0 <= j < i ==> (#[trigger] dv[j]).1 is Str,
            domain_pairs(domains@) == text_pairs(dv.subrange(0, i as int)),
        decreases ds@.len() - i,
    {
        let ns = match &ds[i].1 {
            Json::Str(s) => s.clone(),
            _ => {
                proof {
                    assert(!(dv[i as int].1 is Str));
                    assert(!all_texts(dv));
                }
                return Err(StoreError::Config);
            },
        };
        let ghost before = domains@;
        let key = ds[i].0.clone();
        proof {
            assert(dv[i as int] == (ds@[i as int].0@, ds@[i as int].1@));
            assert(ns@ == dv[i as int].1->Str_0);
            assert(key@ == dv[i as int].0);
        }
        domains.push((key, ns));
        proof {
            assert forall|j: int| 0 <= j < i implies #[trigger] domain_pairs(domains@)[j]
                == text_pairs(dv.subrange(0, i as int + 1))[j] by {
                assert(domains@[j] == before[j]);
                assert(domain_pairs(before)[j] == text_pairs(dv.subrange(0, i as int))[j]);
            }
            assert(domain_pairs(domains@) =~= text_pairs(dv.subrange(0, i as int + 1)));
        }
        i = i + 1;
    }
    proof {
        assert(dv.subrange(0, ds@.len() as int) =~= dv);
        assert(all_texts(dv));
    }
    Ok(ConfigConnection { source_db_uri, dest_db_uri, domains })
}

} // verus!
