//! Sampling the values of a column: a collector keeps a bounded sample of the
//! values it is shown, each value with the same chance to be in it.

use vstd::prelude::*;

verus! {

/// The first byte of an encoded value that is null.
pub const NIL_FLAG: u8 = 0;

#[verifier::external_type_specification]
#[verifier::external_body]
pub struct ExStdRng(rand::rngs::StdRng);

/// Draws a number below `high` with `rand::Rng::gen_range(0, high)`, which
/// gives a value from zero up to but not including `high` and panics unless
/// `high` is above zero.
#[verifier::external_body]
fn gen_range_u64(rng: &mut rand::rngs::StdRng, high: u64) -> (r: u64)
    requires
        high > 0,
    ensures
        r < high,
{
    rand::Rng::gen_range(rng, 0u64, high)
}

/// Collects a sample of the values of a column, and counts the values, the
/// nulls among them and the bytes they take.
pub struct SampleCollector {
    samples: Vec<Vec<u8>>,
    null_count: u64,
    count: u64,
    max_sample_size: usize,
    rng: rand::rngs::StdRng,
    total_size: u64,
}

/// The values of a sample as byte strings.
pub open spec fn samples_view(samples: Seq<Vec<u8>>) -> Seq<Seq<u8>> {
    samples.map_values(|v: Vec<u8>| v@)
}

impl SampleCollector {
    /// The sample holds no more values than it may.
    pub closed spec fn wf(&self) -> bool {
        self.samples@.len() <= self.max_sample_size
    }

    /// The sample.
    pub closed spec fn samples(&self) -> Seq<Seq<u8>> {
        samples_view(self.samples@)
    }

    /// Number of nulls seen.
    pub closed spec fn null_count(&self) -> u64 {
        self.null_count
    }

    /// Number of values seen that are not null.
    pub closed spec fn count(&self) -> u64 {
        self.count
    }

    /// The most values that the sample holds.
    pub closed spec fn max_sample_size(&self) -> usize {
        self.max_sample_size
    }

    /// Bytes of the values seen that are not null.
    pub closed spec fn total_size(&self) -> u64 {
        self.total_size
    }

    /// A collector that has seen nothing, with the source of its draws.
    pub fn new(max_sample_size: usize, rng: rand::rngs::StdRng) -> (c: SampleCollector)
        ensures
            c.samples() == Seq::<Seq<u8>>::empty(),
            c.null_count() == 0,
            c.count() == 0,
            c.total_size() == 0,
            c.max_sample_size() == max_sample_size,
            c.wf(),
    {
        let c = SampleCollector {
            samples: Vec::new(),
            null_count: 0,
            count: 0,
            max_sample_size,
            rng,
            total_size: 0,
        };
        assert(c.samples() =~= Seq::<Seq<u8>>::empty());
        c
    }

    /// Number of nulls seen.
    pub fn num_nulls(&self) -> (n: u64)
        ensures
            n == self.null_count(),
    {
        self.null_count
    }

    /// Number of values seen that are not null.
    pub fn num_values(&self) -> (n: u64)
        ensures
            n == self.count(),
    {
        self.count
    }

    /// Bytes of the values seen that are not null.
    pub fn size_of_values(&self) -> (n: u64)
        ensures
            n == self.total_size(),
    {
        self.total_size
    }

    /// The sample, the number of nulls, the number of other values and the
    /// bytes that those take.
    pub fn into_parts(self) -> (r: (Vec<Vec<u8>>, u64, u64, u64))
        ensures
            samples_view(r.0@) == self.samples(),
            self.wf() ==> r.0@.len() <= self.max_sample_size(),
            r.1 == self.null_count(),
            r.2 == self.count(),
            r.3 == self.total_size(),
    {
        (self.samples, self.null_count, self.count, self.total_size)
    }

    /// Whether the draw `draw`, made among the values seen, lets a new value
    /// into a full sample: it falls below the size of the sample.
    pub open spec fn lets_in(&self, draw: u64) -> bool {
        draw < self.max_sample_size()
    }

    /// Places `data` in a full sample by the two numbers drawn for it. Where
    /// `draw` lets it in, the value at `idx` leaves and `data` becomes the
    /// last; else the sample stays as it is. The counts stay.
    pub fn place(&mut self, data: Vec<u8>, draw: u64, idx: usize)
        requires
            old(self).wf(),
            old(self).samples().len() == old(self).max_sample_size(),
            old(self).lets_in(draw) ==> idx < old(self).max_sample_size(),
        ensures
            final(self).wf(),
            final(self).max_sample_size() == old(self).max_sample_size(),
            final(self).null_count() == old(self).null_count(),
            final(self).count() == old(self).count(),
            final(self).total_size() == old(self).total_size(),
            final(self).samples() == if old(self).lets_in(draw) {
                old(self).samples().remove(idx as int).push(data@)
            } else {
                old(self).samples()
            },
    {
        if draw < self.max_sample_size as u64 {
            self.samples.remove(idx);
            self.samples.push(data);
            assert(samples_view(self.samples@) =~= samples_view(old(self).samples@).remove(
                idx as int,
            ).push(data@));
        }
    }

    /// Shows a value to the collector. A null is counted. Any other value is
    /// counted with its bytes, and joins the sample while there is room.
    /// Once the sample is full, the value takes the place of one that is
    /// drawn from the sample, with the chance of the sample's size over the
    /// number of values seen; else the sample stays as it is.
    pub fn collect(&mut self, data: Vec<u8>)
        requires
            old(self).wf(),
            data@.len() > 0,
            old(self).null_count() < u64::MAX,
            old(self).count() < u64::MAX,
            old(self).total_size() + data@.len() <= u64::MAX,
        ensures
            final(self).wf(),
            final(self).max_sample_size() == old(self).max_sample_size(),
            data@[0] == NIL_FLAG ==> final(self).null_count() == old(self).null_count() + 1
                && final(self).count() == old(self).count() && final(self).total_size() == old(
                self,
            ).total_size() && final(self).samples() == old(self).samples(),
            data@[0] != NIL_FLAG ==> final(self).null_count() == old(self).null_count()
                && final(self).count() == old(self).count() + 1 && final(self).total_size() == old(
                self,
            ).total_size() + data@.len(),
            data@[0] != NIL_FLAG && old(self).samples().len() < old(self).max_sample_size()
                ==> final(self).samples() == old(self).samples().push(data@),
            data@[0] != NIL_FLAG && old(self).samples().len() >= old(self).max_sample_size()
                ==> final(self).samples() == old(self).samples() || exists|idx: int|
                0 <= idx < old(self).samples().len() && final(self).samples() == old(
                    self,
                ).samples().remove(idx).push(data@),
    {
        if data[0] == NIL_FLAG {
            self.null_count += 1;
            return ;
        }
        self.count += 1;
        self.total_size += data.len() as u64;
        let ghost before = samples_view(self.samples@);
        if self.samples.len() < self.max_sample_size {
            self.samples.push(data);
            assert(samples_view(self.samples@) =~= before.push(data@));
        } else {
            let draw = gen_range_u64(&mut self.rng, self.count);
            let idx = if draw < self.max_sample_size as u64 {
                gen_range_u64(&mut self.rng, self.max_sample_size as u64) as usize
            } else {
                0
            };
            self.place(data, draw, idx);
        }
    }
}

} // verus!
