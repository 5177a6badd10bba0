//! The transcode coordinator: drives every descriptor's bytes through the
//! codec, counts completed items in the shared completion counter, and
//! aggregates per-item failures into one outcome — the earliest failure in
//! dispatch order, after every item has had its chance to run.

use vstd::prelude::*;

use image::ImageEncoder;
use rayon::iter::IntoParallelRefIterator;
use rayon::iter::ParallelIterator;

verus! {

/// Immutable conversion configuration, read by the coordinator.
#[derive(Debug)]
pub struct CompressOptions {
    pub quality: u8,
}

/// What the codec returns for given input bytes at a given quality: the
/// re-encoded image when the input decodes, nothing when it does not. The
/// codec is deterministic, so its outcome is a function of its arguments
/// alone.
pub uninterp spec fn transcode_res(input: Seq<u8>, quality: u8) -> Option<Seq<u8>>;

/// Relies on `image::load_from_memory` and
/// `image::codecs::jpeg::JpegEncoder::write_image`: decoding accepts a
/// superset of the staged formats, re-encoding always emits JPEG at the
/// given quality, and both are deterministic in the bytes and the quality.
#[verifier::external_body]
fn jpeg_transcode(input: &Vec<u8>, quality: u8) -> (r: Result<Vec<u8>, String>)
    ensures
        r is Ok <==> transcode_res(input@, quality) is Some,
        r matches Ok(v) ==> transcode_res(input@, quality) matches Some(s) && v@ == s,
{
    let img = match image::load_from_memory(input) {
        Ok(i) => i,
        Err(e) => return Err(format!("{}", e)),
    };
    let mut out: Vec<u8> = Vec::new();
    let enc = image::codecs::jpeg::JpegEncoder::new_with_quality(&mut out, quality);
    match enc.write_image(img.as_bytes(), img.width(), img.height(), img.color().into()) {
        Ok(()) => Ok(out),
        Err(e) => Err(format!("{}", e)),
    }
}

/// Transcodes one image: decodes the input bytes and re-encodes them as a
/// lossy JPEG at the given quality. Succeeds exactly when the bytes both
/// decode and re-encode (a decoded color layout the encoder refuses also
/// fails), and the output is determined by the input and the quality.
pub fn compress_img(input: &Vec<u8>, quality: u8) -> (r: Result<Vec<u8>, String>)
    ensures
        r is Ok <==> transcode_res(input@, quality) is Some,
        r matches Ok(v) ==> transcode_res(input@, quality) matches Some(s) && v@ == s,
{
    jpeg_transcode(input, quality)
}

/// The shared completion counter: one count of finished transcode tasks,
/// monotonically non-decreasing within a run, freshly allocated per run.
pub struct CompletionCounter {
    count: usize,
}

impl CompletionCounter {
    /// How many tasks have completed.
    pub closed spec fn value(self) -> nat {
        self.count as nat
    }

    pub fn new() -> (r: Self)
        ensures
            r.value() == 0,
    {
        CompletionCounter { count: 0 }
    }

    /// One task finished: the count grows by exactly one.
    pub fn increment(&mut self)
        requires
            old(self).value() < usize::MAX,
        ensures
            final(self).value() == old(self).value() + 1,
    {
        self.count = self.count + 1;
    }

    pub fn get(&self) -> (r: usize)
        ensures
            r as nat == self.value(),
    {
        self.count
    }
}

/// The progress observer's stopping rule: it keeps sampling until the
/// completion count it reads has reached the expected total.
pub fn observer_done(current: usize, total: usize) -> (r: bool)
    ensures
        r == (current >= total),
{
    current >= total
}

/// How many of the inputs the codec accepts: the count the completion
/// counter reaches when every task has run.
pub open spec fn ok_count(inputs: Seq<Vec<u8>>, quality: u8) -> nat
    decreases inputs.len(),
{
    if inputs.len() == 0 {
        0
    } else {
        ok_count(inputs.drop_last(), quality) + if transcode_res(inputs.last()@, quality) is Some {
            1nat
        } else {
            0nat
        }
    }
}

/// No more items succeed than were dispatched.
pub proof fn lemma_ok_count_le(inputs: Seq<Vec<u8>>, quality: u8)
    ensures
        ok_count(inputs, quality) <= inputs.len(),
    decreases inputs.len(),
{
    if inputs.len() > 0 {
        lemma_ok_count_le(inputs.drop_last(), quality);
    }
}

/// The completion counter reaches the full total exactly when every task
/// succeeds.
pub proof fn lemma_ok_count_all(inputs: Seq<Vec<u8>>, quality: u8)
    ensures
        ok_count(inputs, quality) == inputs.len() <==> (forall|i: int|
            0 <= i < inputs.len() ==> transcode_res(#[trigger] inputs[i]@, quality) is Some),
    decreases inputs.len(),
{
    lemma_ok_count_le(inputs, quality);
    if inputs.len() > 0 {
        lemma_ok_count_le(inputs.drop_last(), quality);
        lemma_ok_count_all(inputs.drop_last(), quality);
        assert(inputs.last() == inputs[inputs.len() - 1]);
        assert forall|i: int| 0 <= i < inputs.drop_last().len() implies inputs.drop_last()[i]
            == inputs[i] by {}
    }
}

/// The failure the coordinator reports: the first failed task in dispatch
/// order, with the codec's message.
#[derive(Debug)]
pub struct CompressError {
    pub index: usize,
    pub message: String,
}

/// Relies on rayon's `par_iter().map(..).collect()` over a `Vec`: the
/// closure runs once per element and the collected results keep the
/// input's order. The closure only calls the verified [`compress_img`].
#[verifier::external_body]
fn par_transcode(inputs: &Vec<Vec<u8>>, quality: u8) -> (r: Vec<Result<Vec<u8>, String>>)
    ensures
        r@.len() == inputs@.len(),
        forall|i: int|
            0 <= i < r@.len() ==> (#[trigger] r@[i] is Ok <==> transcode_res(
                inputs@[i]@,
                quality,
            ) is Some) && (r@[i] matches Ok(v) ==> transcode_res(inputs@[i]@, quality) matches Some(
                s,
            ) && v@ == s),
{
    inputs.par_iter().map(|b| compress_img(b, quality)).collect()
}

/// How many of the per-task results carry an output.
pub open spec fn ok_results(results: Seq<Result<Vec<u8>, String>>) -> nat
    decreases results.len(),
{
    if results.len() == 0 {
        0
    } else {
        ok_results(results.drop_last()) + if results.last() is Ok {
            1nat
        } else {
            0nat
        }
    }
}

/// No more results carry an output than there are results.
proof fn lemma_ok_results_le(results: Seq<Result<Vec<u8>, String>>)
    ensures
        ok_results(results) <= results.len(),
    decreases results.len(),
{
    if results.len() > 0 {
        lemma_ok_results_le(results.drop_last());
    }
}

/// Per-task results that succeed exactly where the codec accepts carry
/// exactly as many outputs as the codec accepts inputs.
proof fn lemma_ok_results_count(results: Seq<Result<Vec<u8>, String>>, inputs: Seq<Vec<u8>>, quality: u8)
    requires
        results.len() == inputs.len(),
        forall|i: int|
            0 <= i < results.len() ==> ((#[trigger] results[i]) is Ok <==> transcode_res(
                inputs[i]@,
                quality,
            ) is Some),
    ensures
        ok_results(results) == ok_count(inputs, quality),
    decreases results.len(),
{
    if results.len() > 0 {
        assert forall|i: int| 0 <= i < results.drop_last().len() implies ((
        #[trigger] results.drop_last()[i]) is Ok <==> transcode_res(
            inputs.drop_last()[i]@,
            quality,
        ) is Some) by {
            assert(results.drop_last()[i] == results[i]);
            assert(inputs.drop_last()[i] == inputs[i]);
        }
        lemma_ok_results_count(results.drop_last(), inputs.drop_last(), quality);
        assert(results.last() == results[results.len() - 1]);
        assert(inputs.last() == inputs[inputs.len() - 1]);
    }
}

/// The aggregation policy over the collected per-task outcomes, shared
/// by the coordinator and by any runner that collects its own results:
/// the completion counter ends at exactly the number of successes; the
/// result is every output in task order when all succeeded, and
/// otherwise the first failure in dispatch order, with its message.
pub fn aggregate_results(results: Vec<Result<Vec<u8>, String>>, completed: &mut CompletionCounter) -> (r: Result<Vec<Vec<u8>>, CompressError>)
    requires
        old(completed).value() == 0,
    ensures
        final(completed).value() == ok_results(results@),
        r is Ok <==> (forall|i: int| 0 <= i < results@.len() ==> (#[trigger] results@[i]) is Ok),
        r matches Ok(outs) ==> outs@.len() == results@.len() && (forall|i: int|
            0 <= i < results@.len() ==> ((#[trigger] results@[i]) matches Ok(v) && outs@[i] == v)),
        r matches Err(e) ==> e.index < results@.len() && (forall|k: int|
            0 <= k < e.index ==> (#[trigger] results@[k]) is Ok) && (results@[e.index as int]
            matches Err(m) && e.message == m),
{
    let ghost all = results@;
    let mut rest = results;
    let n: usize = rest.len();
    let mut outs: Vec<Vec<u8>> = Vec::new();
    let mut first_err: Option<CompressError> = None;
    let mut i: usize = 0;
    proof {
        assert(all.skip(0) =~= all);
        assert(all.take(0) =~= Seq::<Result<Vec<u8>, String>>::empty());
    }
    while i < n
        invariant
            i <= n,
            all.len() == n,
            rest@ == all.skip(i as int),
            completed.value() == ok_results(all.take(i as int)),
            first_err is None ==> outs@.len() == i && (forall|k: int|
                0 <= k < i ==> ((#[trigger] all[k]) matches Ok(v) && outs@[k] == v)),
            first_err matches Some(e) ==> e.index < i && (forall|k: int|
                0 <= k < e.index ==> (#[trigger] all[k]) is Ok) && (all[e.index as int] matches Err(
                m,
            ) && e.message == m),
        decreases n - i,
    {
        proof {
            lemma_ok_results_le(all.take(i as int));
            assert(all.skip(i as int)[0] == all[i as int]);
            assert(all.skip(i as int).remove(0) =~= all.skip(i as int + 1));
            assert(all.take(i as int + 1).drop_last() =~= all.take(i as int));
            assert(all.take(i as int + 1).last() == all[i as int]);
        }
        let item = rest.remove(0);
        match item {
            Ok(v) => {
                completed.increment();
                if first_err.is_none() {
                    outs.push(v);
                }
            },
            Err(m) => {
                if first_err.is_none() {
                    first_err = Some(CompressError { index: i, message: m });
                }
            },
        }
        i = i + 1;
    }
    proof {
        assert(all.take(n as int) =~= all);
    }
    match first_err {
        None => Ok(outs),
        Some(e) => Err(e),
    }
}

/// Transcodes every input in parallel and aggregates the outcome. Every
/// task runs whether or not a sibling fails; the completion counter ends
/// exactly at the number of successes; the result is the outputs, in
/// input order, when all succeed, and otherwise the first failure in
/// dispatch order.
pub fn compress_images_parallel(
    inputs: &Vec<Vec<u8>>,
    options: &CompressOptions,
    completed: &mut CompletionCounter,
) -> (r: Result<Vec<Vec<u8>>, CompressError>)
    requires
        old(completed).value() == 0,
    ensures
        final(completed).value() == ok_count(inputs@, options.quality),
        r is Ok <==> (forall|i: int|
            0 <= i < inputs@.len() ==> transcode_res(
                #[trigger] inputs@[i]@,
                options.quality,
            ) is Some),
        r matches Ok(outs) ==> outs@.len() == inputs@.len() && (forall|i: int|
            0 <= i < inputs@.len() ==> (transcode_res(#[trigger] inputs@[i]@, options.quality)
                matches Some(s) && outs@[i]@ == s)),
        r matches Err(e) ==> e.index < inputs@.len() && transcode_res(
            inputs@[e.index as int]@,
            options.quality,
        ) is None && (forall|k: int|
            0 <= k < e.index ==> transcode_res(#[trigger] inputs@[k]@, options.quality) is Some),
{
    let results = par_transcode(inputs, options.quality);
    let ghost all = results@;
    proof {
        lemma_ok_results_count(all, inputs@, options.quality);
    }
    let r = aggregate_results(results, completed);
    proof {
        if forall|i: int|
            0 <= i < inputs@.len() ==> transcode_res(
                #[trigger] inputs@[i]@,
                options.quality,
            ) is Some {
            assert forall|i: int| 0 <= i < all.len() implies (#[trigger] all[i]) is Ok by {
                assert(transcode_res(inputs@[i]@, options.quality) is Some);
            }
        }
        if r is Ok {
            assert forall|i: int| 0 <= i < inputs@.len() implies transcode_res(
                #[trigger] inputs@[i]@,
                options.quality,
            ) is Some by {
                assert(all[i] is Ok);
            }
            assert forall|i: int| 0 <= i < inputs@.len() implies (transcode_res(
                #[trigger] inputs@[i]@,
                options.quality,
            ) matches Some(s) && (r->Ok_0)@[i]@ == s) by {
                assert(all[i] matches Ok(v) && (r->Ok_0)@[i] == v);
            }
        }
        if r is Err {
            let e = r->Err_0;
            assert(all[e.index as int] is Err);
            assert(transcode_res(inputs@[e.index as int]@, options.quality) is None);
            assert forall|k: int| 0 <= k < e.index implies transcode_res(
                #[trigger] inputs@[k]@,
                options.quality,
            ) is Some by {
                assert(all[k] is Ok);
            }
        }
    }
    r
}

} // verus!
