use vstd::prelude::*;

use crate::codec;
use crate::codec::{b64_of, dec_blob, enc_registry, merge_pairs, pairs_ok, pairs_view};
use crate::endpoint::{extract_endpoint, spec_extract};
use crate::jsonout;
use crate::jsonout::json_of_record;
use crate::error::ServicingError;
use crate::models::{Configuration, UserProvidedConfigV, UserProvidedConfig};
use crate::models::{overlay, spec_default_configuration};
use crate::registry::{all_wf, map_of, unique_keys, PairSeq, Registry, ServiceRecord,
    ServiceRecordV};

verus! {

/// The record a fresh `add_service` registers: the default template with the
/// caller's overlay applied, a configuration file named after the service,
/// no endpoint, not up.
pub open spec fn new_record(name: Seq<char>, config: Option<UserProvidedConfigV>) -> ServiceRecordV {
    ServiceRecordV {
        data: config,
        template: match config {
            Some(c) => overlay(spec_default_configuration(), c),
            None => spec_default_configuration(),
        },
        filepath: Some(name + "_service.yaml"@),
        url: None,
        up: false,
    }
}

/// The recheck candidates of a pair sequence: for every record that has an
/// endpoint but is not up, its name and its full readiness-probe target.
pub open spec fn candidates_of(ps: PairSeq) -> Seq<(Seq<char>, Seq<char>)>
    decreases ps.len(),
{
    if ps.len() == 0 {
        Seq::empty()
    } else {
        candidates_of(ps.drop_last()) + if ps.last().1.url is Some && !ps.last().1.up {
            seq![
                (
                    ps.last().0,
                    ps.last().1.url->0 + ps.last().1.template.service.readiness_probe,
                ),
            ]
        } else {
            Seq::empty()
        }
    }
}

/// Marking one launching service up touches that service alone: the set of
/// registered names stays the same, the marked record keeps its endpoint,
/// and every other record is untouched.
pub proof fn lemma_confirm_up_integrity(m: Map<Seq<char>, ServiceRecordV>, n: Seq<char>)
    requires
        m.dom().contains(n),
        m[n].url is Some,
    ensures
        m.insert(n, m[n].with_up(true)).dom() == m.dom(),
        m.insert(n, m[n].with_up(true))[n].up,
        m.insert(n, m[n].with_up(true))[n].url == m[n].url,
        forall|k: Seq<char>|
            m.dom().contains(k) && k != n ==> m.insert(n, m[n].with_up(true))[k] == m[k],
{
    assert(m.insert(n, m[n].with_up(true)).dom() =~= m.dom());
}

/// What one readiness-probe fetch reported: a healthy response, a response
/// still carrying the "no ready replicas" marker, or a transport failure.
#[derive(Debug, Clone, Copy, PartialEq, Eq)]
pub enum ProbeOutcome {
    Ready,
    NotReady,
    TransportError,
}

/// The lifecycle manager: it owns the registry and drives every state
/// transition.  The process edges around it — the orchestrator subprocess,
/// the configuration files, the readiness probes — run outside and feed
/// their outcomes in as plain values.
pub struct Dispatcher {
    service: Registry,
}

impl View for Dispatcher {
    type V = Map<Seq<char>, ServiceRecordV>;

    closed spec fn view(&self) -> Map<Seq<char>, ServiceRecordV> {
        self.service@
    }
}

impl Dispatcher {
    /// The registry's name/record pairs, in insertion order.
    pub closed spec fn pairs(self) -> PairSeq {
        self.service.pairs()
    }

    /// The registry invariant: unique names, and every record marked up has
    /// an endpoint.
    pub closed spec fn wf(self) -> bool {
        self.service.wf()
    }

    /// The mapping the manager denotes is exactly the one its pair walk
    /// builds, the walk carries each name once, and every record of it is
    /// well-formed: what `save` emits is a faithful image of the registry.
    pub proof fn lemma_view_of_pairs(self)
        requires
            self.wf(),
        ensures
            self@ == map_of(self.pairs()),
            unique_keys(self.pairs()),
            all_wf(self.pairs()),
    {
        self.service.lemma_view_of_pairs();
    }

    /// A manager with an empty registry.
    pub fn new() -> (r: Dispatcher)
        ensures
            r.wf(),
            r@ == Map::<Seq<char>, ServiceRecordV>::empty(),
            r.pairs().len() == 0,
    {
        Dispatcher { service: Registry::new() }
    }

    /// Registers a new service: the default template with the overlay
    /// applied, no endpoint, not up.  Fails if the name is taken.
    pub fn add_service(&mut self, name: String, config: Option<UserProvidedConfig>) -> (r: Result<
        (),
        ServicingError,
    >)
        requires
            old(self).wf(),
        ensures
            final(self).wf(),
            old(self)@.dom().contains(name@) ==> (r matches Err(ServicingError::AlreadyExists(n))
                && n@ == name@ && final(self)@ == old(self)@),
            !old(self)@.dom().contains(name@) ==> (r is Ok && final(self)@ == old(self)@.insert(
                name@,
                new_record(name@, match config {
                    Some(c) => Some(c@),
                    None => None,
                }),
            )),
    {
        if self.service.contains(&name) {
            return Err(ServicingError::AlreadyExists(name));
        }
        let mut template = Configuration::default();
        let data = match config {
            Some(c) => {
                template.update(&c);
                Some(c)
            },
            None => None,
        };
        let filepath = name.clone().concat("_service.yaml");
        let record = ServiceRecord { data, template, filepath: Some(filepath), url: None, up: false };
        self.service.upsert(name, record);
        Ok(())
    }

    /// Unregisters a service.  A service still up, or launching, stays; on
    /// success the entry is gone.
    pub fn remove_service(&mut self, name: String) -> (r: Result<(), ServicingError>)
        requires
            old(self).wf(),
        ensures
            final(self).wf(),
            !old(self)@.dom().contains(name@) ==> (r matches Err(ServicingError::NotFound(n)) && n@
                == name@ && final(self)@ == old(self)@),
            old(self)@.dom().contains(name@) && old(self)@[name@].up ==> (r matches Err(
                ServicingError::StillRunning(n),
            ) && n@ == name@ && final(self)@ == old(self)@),
            old(self)@.dom().contains(name@) && !old(self)@[name@].up
                && old(self)@[name@].url is Some ==> (r matches Err(ServicingError::Launching(n))
                && n@ == name@ && final(self)@ == old(self)@),
            old(self)@.dom().contains(name@) && !old(self)@[name@].up
                && old(self)@[name@].url is None ==> (r is Ok && final(self)@ == old(self)@.remove(
                name@,
            )),
    {
        match self.service.get(&name) {
            None => {
                return Err(ServicingError::NotFound(name));
            },
            Some(rec) => {
                if rec.up {
                    return Err(ServicingError::StillRunning(name));
                }
                if rec.url.is_some() {
                    return Err(ServicingError::Launching(name));
                }
            },
        }
        let _ = self.service.remove(&name);
        Ok(())
    }

    /// The configuration file to hand to the orchestrator's "serve up"
    /// invocation.  Fails if the service is unknown, already launching or
    /// up, or has no configuration file.
    pub fn up_prepare(&self, name: &String) -> (r: Result<String, ServicingError>)
        requires
            self.wf(),
        ensures
            !self@.dom().contains(name@) ==> (r matches Err(ServicingError::NotFound(n)) && n@
                == name@),
            self@.dom().contains(name@) && self@[name@].url is Some ==> (r matches Err(
                ServicingError::AlreadyRunning(n),
            ) && n@ == name@),
            self@.dom().contains(name@) && self@[name@].url is None && self@[name@].filepath
                is Some ==> (r matches Ok(fp) && fp@ == self@[name@].filepath->0),
            self@.dom().contains(name@) && self@[name@].url is None && self@[name@].filepath
                is None ==> (r matches Err(ServicingError::General(_))),
    {
        match self.service.get(name) {
            None => Err(ServicingError::NotFound(name.clone())),
            Some(rec) => {
                if rec.url.is_some() {
                    return Err(ServicingError::AlreadyRunning(name.clone()));
                }
                match &rec.filepath {
                    Some(fp) => Ok(fp.clone()),
                    None => Err(ServicingError::General("filepath not found".to_owned())),
                }
            },
        }
    }

    /// Records the endpoint that the orchestrator's status output reports
    /// for a freshly provisioned service: the service moves to launching,
    /// and the returned probe target (endpoint plus readiness-probe path) is
    /// what a monitor task must poll until the service reports healthy.
    pub fn up(&mut self, name: String, status_output: &str) -> (r: Result<String, ServicingError>)
        requires
            old(self).wf(),
        ensures
            final(self).wf(),
            !old(self)@.dom().contains(name@) ==> (r matches Err(ServicingError::NotFound(n)) && n@
                == name@ && final(self)@ == old(self)@),
            old(self)@.dom().contains(name@) && old(self)@[name@].url is Some ==> (r matches Err(
                ServicingError::AlreadyRunning(n),
            ) && n@ == name@ && final(self)@ == old(self)@),
            old(self)@.dom().contains(name@) && old(self)@[name@].url is None && spec_extract(
                status_output@,
            ) is None ==> (r matches Err(ServicingError::EndpointNotFound(n)) && n@ == name@
                && final(self)@ == old(self)@),
            old(self)@.dom().contains(name@) && old(self)@[name@].url is None ==> (spec_extract(
                status_output@,
            ) matches Some(ep) ==> (r matches Ok(probe) && probe@ == ep
                + old(self)@[name@].template.service.readiness_probe && final(self)@ == old(
                self,
            )@.insert(name@, old(self)@[name@].with_url(Some(ep))))),
    {
        let probe_path: String;
        match self.service.get(&name) {
            None => {
                return Err(ServicingError::NotFound(name));
            },
            Some(rec) => {
                if rec.url.is_some() {
                    return Err(ServicingError::AlreadyRunning(name));
                }
                probe_path = rec.template.service.readiness_probe.clone();
            },
        }
        match extract_endpoint(status_output) {
            None => Err(ServicingError::EndpointNotFound(name)),
            Some(ep) => {
                let probe = ep.clone().concat(probe_path.as_str());
                let _ = self.service.set_url(&name, ep);
                Ok(probe)
            },
        }
    }

    /// Takes a service out of the up or launching state before the
    /// orchestrator's "serve down" invocation runs: endpoint and up flag are
    /// cleared at once, and are not restored if that invocation then fails.
    /// A service that is neither up nor launching is only torn down by
    /// force.
    pub fn down(&mut self, name: String, force: Option<bool>) -> (r: Result<(), ServicingError>)
        requires
            old(self).wf(),
        ensures
            final(self).wf(),
            !old(self)@.dom().contains(name@) ==> (r matches Err(ServicingError::NotFound(n)) && n@
                == name@ && final(self)@ == old(self)@),
            old(self)@.dom().contains(name@) && (old(self)@[name@].up || old(self)@[name@].url
                is Some) ==> (r is Ok && final(self)@ == old(self)@.insert(
                name@,
                old(self)@[name@].torn_down(),
            )),
            old(self)@.dom().contains(name@) && !old(self)@[name@].up && old(self)@[name@].url
                is None ==> final(self)@ == old(self)@ && (if force == Some(true) {
                r is Ok
            } else {
                r matches Err(ServicingError::NotUp(n)) && n@ == name@
            }),
    {
        let active: bool;
        match self.service.get(&name) {
            None => {
                return Err(ServicingError::NotFound(name));
            },
            Some(rec) => {
                active = rec.up || rec.url.is_some();
            },
        }
        if active {
            let _ = self.service.tear_down(&name);
            Ok(())
        } else {
            match force {
                Some(true) => Ok(()),
                _ => Err(ServicingError::NotUp(name)),
            }
        }
    }

    /// The probe target of a service that believes itself up: endpoint plus
    /// readiness-probe path, or `None` for a service that is not up.
    pub fn probe_target(&self, name: &String) -> (r: Result<Option<String>, ServicingError>)
        requires
            self.wf(),
        ensures
            !self@.dom().contains(name@) ==> (r matches Err(ServicingError::NotFound(n)) && n@
                == name@),
            self@.dom().contains(name@) && self@[name@].up ==> (r matches Ok(t) && t matches Some(
                u,
            ) && u@ == self@[name@].url->0 + self@[name@].template.service.readiness_probe),
            self@.dom().contains(name@) && !self@[name@].up ==> (r matches Ok(t) && t is None),
    {
        match self.service.get(name) {
            None => Err(ServicingError::NotFound(name.clone())),
            Some(rec) => {
                if rec.up {
                    match &rec.url {
                        Some(u) => Ok(
                            Some(u.clone().concat(rec.template.service.readiness_probe.as_str())),
                        ),
                        None => {
                            proof {
                                assert(self@[name@].wf());
                            }
                            // unreachable: an up record always has an endpoint
                            Err(ServicingError::General("missing endpoint".to_owned()))
                        },
                    }
                } else {
                    Ok(None)
                }
            },
        }
    }

    /// The monitor task's completion: marks the service up, provided it is
    /// still registered and still has an endpoint.  A service torn down or
    /// removed while the monitor ran is left alone.
    pub fn confirm_up(&mut self, name: &String) -> (marked: bool)
        requires
            old(self).wf(),
        ensures
            final(self).wf(),
            marked == (old(self)@.dom().contains(name@) && old(self)@[name@].url is Some),
            final(self)@ == if old(self)@.dom().contains(name@) && old(self)@[name@].url is Some {
                old(self)@.insert(name@, old(self)@[name@].with_up(true))
            } else {
                old(self)@
            },
    {
        self.service.mark_up(name)
    }

    /// Every service that has an endpoint but is not yet up, with its probe
    /// target: the work list of the bulk recheck run after a load.
    pub fn recheck_candidates(&self) -> (r: Vec<(String, String)>)
        requires
            self.wf(),
        ensures
            r@.len() == candidates_of(self.pairs()).len(),
            forall|i: int|
                0 <= i < r@.len() ==> ((#[trigger] r@[i]).0@, r@[i].1@) == candidates_of(
                    self.pairs(),
                )[i],
    {
        let entries = self.service.entries();
        let n = entries.len();
        let mut r: Vec<(String, String)> = Vec::new();
        let mut i: usize = 0;
        proof {
            assert(self.pairs().take(0) =~= Seq::<(Seq<char>, ServiceRecordV)>::empty());
        }
        while i < n
            invariant
                self.wf(),
                n == entries@.len(),
                n == self.pairs().len(),
                forall|j: int|
                    0 <= j < n ==> (#[trigger] entries@[j]).0@ == self.pairs()[j].0 && entries@[j].1@
                        == self.pairs()[j].1,
                i <= n,
                r@.len() == candidates_of(self.pairs().take(i as int)).len(),
                forall|j: int|
                    0 <= j < r@.len() ==> ((#[trigger] r@[j]).0@, r@[j].1@) == candidates_of(
                        self.pairs().take(i as int),
                    )[j],
            decreases n - i,
        {
            let ghost prefix = self.pairs().take(i as int);
            proof {
                assert(self.pairs().take(i + 1).drop_last() =~= prefix);
                assert(self.pairs().take(i + 1).last() == self.pairs()[i as int]);
            }
            let rec = &entries[i].1;
            if rec.url.is_some() && !rec.up {
                let nm = entries[i].0.clone();
                let target = match &rec.url {
                    Some(u) => u.clone().concat(rec.template.service.readiness_probe.as_str()),
                    None => String::new(),  // unreachable: the url was just seen
                };
                r.push((nm, target));
            }
            i = i + 1;
        }
        proof {
            assert(self.pairs().take(n as int) =~= self.pairs());
        }
        r
    }

    /// The names of all registered services, in insertion order.
    pub fn list(&self) -> (r: Result<Vec<String>, ServicingError>)
        ensures
            r matches Ok(names) && names@.len() == self.pairs().len() && (forall|i: int|
                0 <= i < names@.len() ==> (#[trigger] names@[i])@ == self.pairs()[i].0),
    {
        Ok(self.service.names())
    }

    /// The endpoint of a service, if it has one.
    pub fn get_url(&self, name: String) -> (r: Result<String, ServicingError>)
        requires
            self.wf(),
        ensures
            !self@.dom().contains(name@) ==> (r matches Err(ServicingError::NotFound(n)) && n@
                == name@),
            self@.dom().contains(name@) && self@[name@].url is None ==> (r matches Err(
                ServicingError::ServiceDown(n),
            ) && n@ == name@),
            self@.dom().contains(name@) && self@[name@].url is Some ==> (r matches Ok(u) && u@
                == self@[name@].url->0),
    {
        match self.service.get(&name) {
            None => Err(ServicingError::NotFound(name)),
            Some(rec) => match &rec.url {
                Some(u) => Ok(u.clone()),
                None => Err(ServicingError::ServiceDown(name)),
            },
        }
    }

    /// The record registered under this name, if any.
    pub fn lookup(&self, name: &String) -> (r: Option<&ServiceRecord>)
        requires
            self.wf(),
        ensures
            match r {
                Some(rec) => self@.dom().contains(name@) && rec@ == self@[name@],
                None => !self@.dom().contains(name@),
            },
    {
        self.service.get(name)
    }

    /// How many services are registered.
    pub fn len(&self) -> (r: usize)
        ensures
            r == self.pairs().len(),
    {
        self.service.len()
    }

    /// Serializes the whole registry to its binary persistence encoding;
    /// writing the bytes to the well-known cache file is the caller's step.
    pub fn save(&self) -> (bin: Vec<u8>)
        requires
            self.wf(),
        ensures
            bin@ == enc_registry(self.pairs()),
            pairs_ok(self.pairs()),
            all_wf(self.pairs()),
    {
        let entries = self.service.entries();
        let out = codec::encode_registry(entries);
        proof {
            assert(pairs_view(entries@) =~= self.pairs());
        }
        out
    }

    /// The binary persistence encoding, base64-armoured for text channels.
    pub fn save_as_b64(&self) -> (r: Result<String, ServicingError>)
        requires
            self.wf(),
        ensures
            r matches Ok(t) && t@ == b64_of(enc_registry(self.pairs())),
    {
        let bin = self.save();
        Ok(codec::b64_encode(&bin))
    }

    /// Merges a persisted blob into the registry: every decoded entry
    /// overwrites any current entry of the same name — the last load wins.
    /// A blob the codec cannot decode whole leaves the registry untouched.
    pub fn load(&mut self, bin: &Vec<u8>) -> (r: Result<(), ServicingError>)
        requires
            old(self).wf(),
        ensures
            final(self).wf(),
            dec_blob(bin@) matches Some(ps) ==> (r is Ok && final(self)@ == merge_pairs(
                old(self)@,
                ps,
            )),
            dec_blob(bin@) is None ==> (r matches Err(ServicingError::Serialization(_))
                && final(self)@ == old(self)@),
    {
        match codec::decode_blob(bin) {
            None => Err(ServicingError::Serialization("invalid registry blob".to_owned())),
            Some(decoded) => {
                let ghost ps = pairs_view(decoded@);
                let ghost m0 = self@;
                let mut v = decoded;
                while v.len() > 0
                    invariant
                        self.wf(),
                        forall|j: int| 0 <= j < v@.len() ==> (#[trigger] v@[j]).1@.wf(),
                        merge_pairs(m0, ps) == merge_pairs(self@, pairs_view(v@)),
                    decreases v@.len(),
                {
                    let ghost pv0 = pairs_view(v@);
                    let ghost mcur = self@;
                    let p = v.remove(0);
                    proof {
                        assert(pv0[0] == (p.0@, p.1@));
                        assert(pairs_view(v@) =~= pv0.drop_first());
                        assert(merge_pairs(mcur, pv0) == merge_pairs(
                            mcur.insert(p.0@, p.1@),
                            pv0.drop_first(),
                        ));
                    }
                    self.service.upsert(p.0, p.1);
                }
                proof {
                    assert(pairs_view(v@) =~= Seq::<(Seq<char>, ServiceRecordV)>::empty());
                    assert(merge_pairs(self@, pairs_view(v@)) == self@);
                }
                Ok(())
            },
        }
    }

    /// Inverse of [`Dispatcher::save_as_b64`]: decodes the armour, then
    /// merges the blob as [`Dispatcher::load`] does.
    pub fn load_from_b64(&mut self, b64: String) -> (r: Result<(), ServicingError>)
        requires
            old(self).wf(),
        ensures
            final(self).wf(),
            forall|bs: Seq<u8>|
                #[trigger] b64_of(bs) == b64@ ==> match dec_blob(bs) {
                    Some(ps) => r is Ok && final(self)@ == merge_pairs(old(self)@, ps),
                    None => r matches Err(ServicingError::Serialization(_)) && final(self)@
                        == old(self)@,
                },
            (!exists|bs: Seq<u8>| #[trigger] b64_of(bs) == b64@) ==> (r matches Err(
                ServicingError::Serialization(_),
            ) && final(self)@ == old(self)@),
    {
        match codec::b64_decode(b64.as_str()) {
            Err(e) => Err(ServicingError::Serialization(e.to_string())),
            Ok(v) => self.load(&v),
        }
    }

    /// The status snapshot of a service.  The caller probes an up service
    /// once and hands the outcome in; a service whose probe no longer
    /// reports healthy is self-healed to not-up before the snapshot is
    /// rendered, compact or pretty.
    pub fn status(&mut self, name: String, probe: Option<ProbeOutcome>, pretty: Option<bool>) -> (r:
        Result<String, ServicingError>)
        requires
            old(self).wf(),
            old(self)@.dom().contains(name@) && old(self)@[name@].up ==> probe is Some,
        ensures
            final(self).wf(),
            !old(self)@.dom().contains(name@) ==> (r matches Err(ServicingError::NotFound(n)) && n@
                == name@ && final(self)@ == old(self)@),
            old(self)@.dom().contains(name@) ==> ({
                let rec = old(self)@[name@];
                let stale = rec.up && !(probe matches Some(ProbeOutcome::Ready));
                &&& final(self)@ == if stale {
                    old(self)@.insert(name@, rec.with_up(false))
                } else {
                    old(self)@
                }
                &&& r matches Ok(t) && t@ == json_of_record(
                    if stale {
                        rec.with_up(false)
                    } else {
                        rec
                    },
                    pretty == Some(true),
                )
            }),
    {
        let rec_up: bool;
        match self.service.get(&name) {
            None => {
                return Err(ServicingError::NotFound(name));
            },
            Some(rec) => {
                rec_up = rec.up;
            },
        }
        let stale = rec_up && match probe {
            Some(ProbeOutcome::Ready) => false,
            _ => true,
        };
        if stale {
            let _ = self.service.mark_down(&name);
        }
        let pretty_flag = match pretty {
            Some(true) => true,
            _ => false,
        };
        proof {
            assert(pretty_flag == (pretty == Some(true)));
        }
        match self.service.get(&name) {
            Some(rec) => {
                let txt = jsonout::render_record(rec, pretty_flag);
                Ok(txt)
            },
            None => {
                proof {
                    assert(false);
                }
                Err(ServicingError::General("record vanished".to_owned()))
            },
        }
    }
}

} // verus!
