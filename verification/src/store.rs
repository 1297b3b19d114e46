//! The capacity-bounded, insertion-ordered calibration store, its frozen
//! configuration, and the exported profile document.

use vstd::prelude::*;

use crate::MFCC_SIZE;
use crate::algorithm::all_finite;
use crate::algorithm::all_samples_finite;

verus! {

/// Which comparison the downstream consumer should apply to the profile;
/// carried through to the export document as passthrough metadata.
#[derive(Clone, Copy, PartialEq, Eq, Structural, Debug)]
pub enum CompareMethod {
    L1Norm,
    L2Norm,
    CosineSimilarity,
}

impl CompareMethod {
    /// The numeric tag of this method in the export document.
    pub open spec fn as_u32_spec(self) -> u32 {
        match self {
            CompareMethod::L1Norm => 0,
            CompareMethod::L2Norm => 1,
            CompareMethod::CosineSimilarity => 2,
        }
    }

    /// Returns the numeric tag of this method.
    pub fn as_u32(&self) -> (tag: u32)
        ensures
            tag == self.as_u32_spec(),
    {
        match self {
            CompareMethod::L1Norm => 0,
            CompareMethod::L2Norm => 1,
            CompareMethod::CosineSimilarity => 2,
        }
    }
}

/// The error kinds the store surfaces: empty audio handed to ingestion, and
/// a failure while encoding the export document for the host.
#[derive(Clone, Copy, PartialEq, Eq, Structural, Debug)]
pub enum ProfileError {
    InvalidArgument,
    SerializationFailure,
}

/// One stored feature vector, as single-precision bit patterns.
pub struct MfccCalibrationData {
    pub array: Vec<u32>,
}

/// All feature vectors accumulated under one label, oldest first.
pub struct MfccEntry {
    pub name: String,
    pub mfcc_calibration_data_list: Vec<MfccCalibrationData>,
}

/// The mathematical model of the store's contents: label / vector-sequence
/// pairs in insertion order.
pub type StoreModel = Seq<(Seq<char>, Seq<Seq<u32>>)>;

/// One entry reduced to its model.
pub open spec fn entry_model(e: MfccEntry) -> (Seq<char>, Seq<Seq<u32>>) {
    (e.name@, e.mfcc_calibration_data_list@.map_values(|d: MfccCalibrationData| d.array@))
}

/// A whole entry list reduced to its model.
pub open spec fn entries_model(es: Seq<MfccEntry>) -> StoreModel {
    es.map_values(|e: MfccEntry| entry_model(e))
}

/// Some entry of the model carries `label`.
pub open spec fn has_label(m: StoreModel, label: Seq<char>) -> bool {
    exists|i: int| 0 <= i < m.len() && m[i].0 == label
}

/// The position of `label` in the model (meaningful when labels are unique).
pub open spec fn label_index(m: StoreModel, label: Seq<char>) -> int {
    choose|i: int| 0 <= i < m.len() && m[i].0 == label
}

/// No two entries carry the same label.
pub open spec fn labels_unique(m: StoreModel) -> bool {
    forall|i: int, j: int| 0 <= i < j < m.len() ==> m[i].0 != m[j].0
}

/// Under unique labels, any matching position is the label's position.
pub proof fn lemma_label_index_is(m: StoreModel, label: Seq<char>, i: int)
    requires
        labels_unique(m),
        0 <= i < m.len(),
        m[i].0 == label,
    ensures
        has_label(m, label),
        label_index(m, label) == i,
{
    assert(has_label(m, label));
    let j = label_index(m, label);
    if i < j {
        assert(m[i].0 != m[j].0);
    } else if j < i {
        assert(m[j].0 != m[i].0);
    }
}

/// The newest `cap` vectors of `vs`: on overflow the oldest are dropped,
/// and the survivors keep their relative order.
pub open spec fn keep_last(vs: Seq<Seq<u32>>, cap: int) -> Seq<Seq<u32>> {
    if vs.len() <= cap {
        vs
    } else {
        vs.skip(vs.len() - cap)
    }
}

/// The model after appending `v` under `label`: the vector joins the tail of
/// the label's entry — created at the end of the model when absent — and the
/// oldest overflow is evicted down to `cap`.
pub open spec fn stored_model(m: StoreModel, label: Seq<char>, v: Seq<u32>, cap: int) -> StoreModel {
    if has_label(m, label) {
        let i = label_index(m, label);
        m.update(i, (label, keep_last(m[i].1.push(v), cap)))
    } else {
        m.push((label, keep_last(seq![v], cap)))
    }
}

/// The model after offering each vector of `vs` in turn under `label`:
/// finite vectors are appended (with eviction after each append), vectors
/// with any non-finite value are discarded.
pub open spec fn ingested_model(
    m: StoreModel,
    label: Seq<char>,
    vs: Seq<Seq<u32>>,
    cap: int,
) -> StoreModel
    decreases vs.len(),
{
    if vs.len() == 0 {
        m
    } else {
        let rest = ingested_model(m, label, vs.drop_last(), cap);
        if all_finite(vs.last()) {
            stored_model(rest, label, vs.last(), cap)
        } else {
            rest
        }
    }
}

/// Construction-time configuration of a `ProfileGenerator`; unset options
/// fall back to their documented defaults.
pub struct ProfileGeneratorOptions {
    pub target_sample_rate: u32,
    pub mel_filter_bank_channels: u32,
    pub compare_method: Option<CompareMethod>,
    pub mfcc_data_count: Option<u32>,
    pub sample_count: Option<u32>,
    pub use_standardization: Option<bool>,
}

impl ProfileGeneratorOptions {
    /// A usable configuration: positive target rate, at least one mel
    /// channel, and a positive frame size where one is given.
    pub open spec fn valid(self) -> bool {
        &&& 1 <= self.target_sample_rate
        &&& 1 <= self.mel_filter_bank_channels
        &&& match self.sample_count {
            Some(c) => 1 <= c,
            None => true,
        }
    }
}

/// The exported calibration document: the store's frozen configuration plus
/// all labels' entries. Encoding it for the host is the caller's concern.
pub struct ProfileDocument {
    pub mfcc_num: usize,
    pub mfcc_data_count: usize,
    pub mel_filter_bank_channels: usize,
    pub target_sample_rate: u32,
    pub sample_count: usize,
    pub use_standardization: u32,
    pub compare_method: u32,
    pub mfccs: Vec<MfccEntry>,
}

/// Accumulates feature vectors per label under a frozen configuration,
/// evicting oldest-first above the per-label capacity.
pub struct ProfileGenerator {
    pub target_sample_rate: u32,
    pub mel_filter_bank_channels: usize,
    pub compare_method: CompareMethod,
    pub entries: Vec<MfccEntry>,
    pub mfcc_data_count: usize,
    pub sample_count: usize,
    pub use_standardization: bool,
}

impl ProfileGenerator {
    /// The store's contents as insertion-ordered label / vector pairs.
    pub open spec fn model(self) -> StoreModel {
        entries_model(self.entries@)
    }

    /// The fixed feature-vector length under this configuration: one
    /// coefficient per mel channel, the zeroth dropped, at most `MFCC_SIZE`.
    pub open spec fn feature_len(self) -> int {
        if self.mel_filter_bank_channels as int - 1 <= MFCC_SIZE as int {
            self.mel_filter_bank_channels as int - 1
        } else {
            MFCC_SIZE as int
        }
    }

    /// The two stores share one configuration.
    pub open spec fn same_config(self, other: ProfileGenerator) -> bool {
        &&& self.target_sample_rate == other.target_sample_rate
        &&& self.mel_filter_bank_channels == other.mel_filter_bank_channels
        &&& self.compare_method == other.compare_method
        &&& self.mfcc_data_count == other.mfcc_data_count
        &&& self.sample_count == other.sample_count
        &&& self.use_standardization == other.use_standardization
    }

    /// Well-formedness: a validated configuration, unique labels, no entry
    /// over capacity, and only finite feature vectors of the fixed length.
    pub open spec fn wf(self) -> bool {
        &&& 1 <= self.target_sample_rate
        &&& 1 <= self.mel_filter_bank_channels
        &&& 1 <= self.sample_count
        &&& labels_unique(self.model())
        &&& forall|i: int|
            0 <= i < self.model().len() ==> (#[trigger] self.model()[i]).1.len()
                <= self.mfcc_data_count
        &&& forall|i: int, k: int|
            0 <= i < self.model().len() && 0 <= k < self.model()[i].1.len() ==> all_finite(
                #[trigger] self.model()[i].1[k],
            ) && self.model()[i].1[k].len() == self.feature_len()
    }

    /// Creates an empty store with the configuration frozen from `opts`,
    /// filling in the documented defaults for unset options.
    pub fn new(opts: ProfileGeneratorOptions) -> (g: ProfileGenerator)
        requires
            opts.valid(),
        ensures
            g.wf(),
            g.model() == Seq::<(Seq<char>, Seq<Seq<u32>>)>::empty(),
            g.target_sample_rate == opts.target_sample_rate,
            g.mel_filter_bank_channels == opts.mel_filter_bank_channels as usize,
            g.compare_method == (match opts.compare_method {
                Some(m) => m,
                None => CompareMethod::L2Norm,
            }),
            g.mfcc_data_count == (match opts.mfcc_data_count {
                Some(c) => c as usize,
                None => 16usize,
            }),
            g.sample_count == (match opts.sample_count {
                Some(c) => c as usize,
                None => 1024usize,
            }),
            g.use_standardization == (match opts.use_standardization {
                Some(b) => b,
                None => false,
            }),
    {
        let compare_method = match opts.compare_method {
            Some(m) => m,
            None => CompareMethod::L2Norm,
        };
        let mfcc_data_count: usize = match opts.mfcc_data_count {
            Some(c) => c as usize,
            None => 16,
        };
        let sample_count: usize = match opts.sample_count {
            Some(c) => c as usize,
            None => 1024,
        };
        let use_standardization = match opts.use_standardization {
            Some(b) => b,
            None => false,
        };
        let g = ProfileGenerator {
            target_sample_rate: opts.target_sample_rate,
            mel_filter_bank_channels: opts.mel_filter_bank_channels as usize,
            compare_method,
            entries: Vec::new(),
            mfcc_data_count,
            sample_count,
            use_standardization,
        };
        proof {
            assert(g.model() =~= Seq::<(Seq<char>, Seq<Seq<u32>>)>::empty());
        }
        g
    }

    /// Looks a label up among the entries.
    fn find_label(&self, label: &String) -> (r: Option<usize>)
        ensures
            match r {
                Some(i) => 0 <= i < self.entries@.len() && self.entries@[i as int].name@
                    == label@,
                None => forall|j: int|
                    0 <= j < self.entries@.len() ==> self.entries@[j].name@ != label@,
            },
    {
        let mut i: usize = 0;
        while i < self.entries.len()
            invariant
                i <= self.entries@.len(),
                forall|j: int| 0 <= j < i ==> self.entries@[j].name@ != label@,
            decreases self.entries@.len() - i,
        {
            if self.entries[i].name == *label {
                return Some(i);
            }
            i += 1;
        }
        None
    }

    /// Appends one feature vector under `label` if every value in it is
    /// finite, evicting the label's oldest vectors down to capacity; a vector
    /// with any non-finite value is discarded and the store left unchanged.
    pub fn store_feature(&mut self, label: &String, features: Vec<u32>) -> (stored: bool)
        requires
            old(self).wf(),
            features@.len() == old(self).feature_len(),
        ensures
            final(self).wf(),
            final(self).same_config(*old(self)),
            stored == all_finite(features@),
            !stored ==> final(self).model() == old(self).model(),
            stored ==> final(self).model() == stored_model(
                old(self).model(),
                label@,
                features@,
                old(self).mfcc_data_count as int,
            ),
    {
        if !all_samples_finite(&features) {
            return false;
        }
        let ghost m0 = self.model();
        let ghost fv = features@;
        let data = MfccCalibrationData { array: features };
        let cap: usize = self.mfcc_data_count;
        match self.find_label(label) {
            Some(i) => {
                proof {
                    assert(m0[i as int] == entry_model(self.entries@[i as int]));
                    lemma_label_index_is(m0, label@, i as int);
                }
                let list: &mut Vec<MfccCalibrationData> =
                    &mut self.entries[i].mfcc_calibration_data_list;
                list.push(data);
                if list.len() > cap {
                    list.remove(0);
                }
                proof {
                    let mi = i as int;
                    let capi = cap as int;
                    let old_mapped = m0[mi].1;
                    let new_mapped = self.entries@[mi].mfcc_calibration_data_list@.map_values(
                        |d: MfccCalibrationData| d.array@,
                    );
                    assert(new_mapped =~= keep_last(old_mapped.push(fv), capi));
                    assert(self.model() =~= stored_model(m0, label@, fv, capi));
                }
            },
            None => {
                proof {
                    assert(forall|k: int|
                        0 <= k < m0.len() ==> m0[k] == entry_model(self.entries@[k]));
                    assert(!has_label(m0, label@));
                }
                let mut list: Vec<MfccCalibrationData> = Vec::new();
                list.push(data);
                if list.len() > cap {
                    list.remove(0);
                }
                let entry = MfccEntry { name: label.clone(), mfcc_calibration_data_list: list };
                self.entries.push(entry);
                proof {
                    let capi = cap as int;
                    assert(entry_model(self.entries@[m0.len() as int]).1 =~= keep_last(
                        seq![fv],
                        capi,
                    ));
                    assert(self.model() =~= stored_model(m0, label@, fv, capi));
                }
            },
        }
        true
    }

    /// Offers a batch of feature vectors under one label, in order: each
    /// finite vector is appended and the label's entry trimmed back to
    /// capacity before the next one, every other vector is discarded.
    pub fn add_features(&mut self, label: &String, features_list: &Vec<Vec<u32>>)
        requires
            old(self).wf(),
            forall|k: int|
                0 <= k < features_list@.len() ==> (#[trigger] features_list@[k])@.len() == old(
                    self,
                ).feature_len(),
        ensures
            final(self).wf(),
            final(self).same_config(*old(self)),
            final(self).model() == ingested_model(
                old(self).model(),
                label@,
                features_list@.map_values(|f: Vec<u32>| f@),
                old(self).mfcc_data_count as int,
            ),
    {
        let ghost m0 = old(self).model();
        let ghost mapped = features_list@.map_values(|f: Vec<u32>| f@);
        let ghost cap: int = old(self).mfcc_data_count as int;
        let mut k: usize = 0;
        while k < features_list.len()
            invariant
                k <= features_list@.len(),
                self.wf(),
                self.same_config(*old(self)),
                mapped == features_list@.map_values(|f: Vec<u32>| f@),
                forall|t: int|
                    0 <= t < features_list@.len() ==> (#[trigger] features_list@[t])@.len() == old(
                        self,
                    ).feature_len(),
                cap == old(self).mfcc_data_count as int,
                m0 == old(self).model(),
                self.model() == ingested_model(m0, label@, mapped.take(k as int), cap),
            decreases features_list@.len() - k,
        {
            let src_vec: &Vec<u32> = &features_list[k];
            let mut copy: Vec<u32> = Vec::new();
            let mut t: usize = 0;
            while t < src_vec.len()
                invariant
                    t <= src_vec@.len(),
                    copy@ == src_vec@.take(t as int),
                decreases src_vec@.len() - t,
            {
                copy.push(src_vec[t]);
                proof {
                    assert(copy@ =~= src_vec@.take(t as int + 1));
                }
                t += 1;
            }
            proof {
                assert(copy@ =~= features_list@[k as int]@);
                assert(self.feature_len() == old(self).feature_len());
            }
            let _stored = self.store_feature(label, copy);
            proof {
                assert(mapped.take(k as int + 1).drop_last() =~= mapped.take(k as int));
                assert(mapped.take(k as int + 1).last() == mapped[k as int]);
                assert(mapped[k as int] == features_list@[k as int]@);
                assert(self.model() == ingested_model(m0, label@, mapped.take(k as int + 1), cap));
            }
            k += 1;
        }
        proof {
            assert(mapped.take(features_list@.len() as int) =~= mapped);
        }
    }

    /// Produces the export document from the frozen configuration and the
    /// current contents, and empties the store; the configuration survives
    /// for further use.
    pub fn finish(&mut self) -> (doc: ProfileDocument)
        requires
            old(self).wf(),
        ensures
            final(self).wf(),
            final(self).same_config(*old(self)),
            final(self).model() == Seq::<(Seq<char>, Seq<Seq<u32>>)>::empty(),
            doc.mfcc_num == MFCC_SIZE,
            doc.mfcc_data_count == old(self).mfcc_data_count,
            doc.mel_filter_bank_channels == old(self).mel_filter_bank_channels,
            doc.target_sample_rate == old(self).target_sample_rate,
            doc.sample_count == old(self).sample_count,
            doc.use_standardization == (if old(self).use_standardization {
                1u32
            } else {
                0u32
            }),
            doc.compare_method == old(self).compare_method.as_u32_spec(),
            entries_model(doc.mfccs@) == old(self).model(),
    {
        let mut drained: Vec<MfccEntry> = Vec::new();
        core::mem::swap(&mut self.entries, &mut drained);
        proof {
            assert(self.model() =~= Seq::<(Seq<char>, Seq<Seq<u32>>)>::empty());
        }
        let use_std: u32 = if self.use_standardization {
            1
        } else {
            0
        };
        ProfileDocument {
            mfcc_num: MFCC_SIZE,
            mfcc_data_count: self.mfcc_data_count,
            mel_filter_bank_channels: self.mel_filter_bank_channels,
            target_sample_rate: self.target_sample_rate,
            sample_count: self.sample_count,
            use_standardization: use_std,
            compare_method: self.compare_method.as_u32(),
            mfccs: drained,
        }
    }
}

/// Screens the raw-audio argument of an ingestion call: empty audio is
/// rejected with `InvalidArgument` before anything touches the store.
pub fn validate_audio(audio_len: usize) -> (r: Result<(), ProfileError>)
    ensures
        audio_len == 0 ==> r == Result::<(), ProfileError>::Err(ProfileError::InvalidArgument),
        audio_len != 0 ==> r == Result::<(), ProfileError>::Ok(()),
{
    if audio_len == 0 {
        Err(ProfileError::InvalidArgument)
    } else {
        Ok(())
    }
}

/// Trimming to capacity commutes with appending: trimming, appending one
/// vector and trimming again leaves the same as appending and trimming once.
proof fn lemma_keep_last_absorb(p: Seq<Seq<u32>>, v: Seq<u32>, cap: int)
    requires
        0 <= cap,
    ensures
        keep_last(keep_last(p, cap).push(v), cap) == keep_last(p.push(v), cap),
{
    if p.len() < cap {
        assert(keep_last(keep_last(p, cap).push(v), cap) =~= keep_last(p.push(v), cap));
    } else {
        assert(keep_last(keep_last(p, cap).push(v), cap) =~= keep_last(p.push(v), cap));
    }
}

/// Law: after an export has drained the store, vectors ingested under a
/// label are all the store reflects — the model becomes exactly that one
/// label with the newest `cap` of the ingested vectors, in order.
pub proof fn lemma_export_then_reuse(label: Seq<char>, vs: Seq<Seq<u32>>, cap: int)
    requires
        0 <= cap,
        1 <= vs.len(),
        forall|k: int| 0 <= k < vs.len() ==> all_finite(#[trigger] vs[k]),
    ensures
        ingested_model(Seq::empty(), label, vs, cap) == seq![(label, keep_last(vs, cap))],
    decreases vs.len(),
{
    let m0 = Seq::<(Seq<char>, Seq<Seq<u32>>)>::empty();
    assert(vs.last() == vs[vs.len() - 1]);
    if vs.len() == 1 {
        assert(vs.drop_last().len() == 0);
        assert(ingested_model(m0, label, vs.drop_last(), cap) == m0);
        assert(!has_label(m0, label));
        assert(seq![vs[0]] =~= vs);
        assert(all_finite(vs.last()));
        assert(ingested_model(m0, label, vs, cap) == stored_model(m0, label, vs.last(), cap));
        assert(stored_model(m0, label, vs.last(), cap) == seq![(label, keep_last(vs, cap))]);
    } else {
        lemma_export_then_reuse(label, vs.drop_last(), cap);
        let rest = ingested_model(m0, label, vs.drop_last(), cap);
        lemma_label_index_is(rest, label, 0);
        lemma_keep_last_absorb(vs.drop_last(), vs.last(), cap);
        assert(vs.drop_last().push(vs.last()) =~= vs);
        assert(stored_model(rest, label, vs.last(), cap) =~= seq![(label, keep_last(vs, cap))]);
    }
}

/// Law: ingesting `cap + k` finite vectors under one label leaves exactly
/// `cap` of them — the last `cap` ingested, their order preserved.
pub proof fn lemma_capacity_eviction(label: Seq<char>, vs: Seq<Seq<u32>>, cap: int)
    requires
        0 <= cap <= vs.len(),
        1 <= vs.len(),
        forall|k: int| 0 <= k < vs.len() ==> all_finite(#[trigger] vs[k]),
    ensures
        ingested_model(Seq::empty(), label, vs, cap).len() == 1,
        ingested_model(Seq::empty(), label, vs, cap)[0].0 == label,
        ingested_model(Seq::empty(), label, vs, cap)[0].1 == vs.skip(vs.len() - cap),
        ingested_model(Seq::empty(), label, vs, cap)[0].1.len() == cap,
{
    lemma_export_then_reuse(label, vs, cap);
}

} // verus!
