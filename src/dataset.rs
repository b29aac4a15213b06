//! Datasets: generation into memory, whole-dataset encoding and decoding,
//! a resettable streaming reader and a batch-bounded streaming writer.

use crate::codec::{
    all_encodable, dataset_bytes, encodable, header_bytes, lemma_records_bytes_concat,
    lemma_round_trip, parse_dataset, parse_header, parse_records, read_header, read_record,
    records_bytes, write_header, write_vector, DatasetError, DatasetMeta, HEADER_SIZE, META_SIZE,
};
use crate::generate::{generate_range, generated_vectors, well_shaped, DEFAULT_DIMENSION};
use crate::vector::{is_canonical, models, SparseVec, VecModel};
use vstd::prelude::*;

verus! {

/// What to generate: `count` vectors of `dimension` coordinates, each with
/// `sparsity` coordinates valued +1 and as many valued -1.
#[derive(Clone, Copy, Debug)]
pub struct GenerateConfig {
    /// Number of vectors to generate.
    pub count: u64,
    /// Vector dimension.
    pub dimension: usize,
    /// Master seed of the dataset.
    pub seed: u64,
    /// Number of +1 coordinates, and of -1 coordinates, of each vector.
    pub sparsity: usize,
}

impl Default for GenerateConfig {
    fn default() -> (r: Self)
        ensures
            r.count == 10_000,
            r.dimension == DEFAULT_DIMENSION,
            r.seed == 42,
            r.sparsity == DEFAULT_DIMENSION / 100,
    {
        GenerateConfig {
            count: 10_000,
            dimension: DEFAULT_DIMENSION,
            seed: 42,
            sparsity: DEFAULT_DIMENSION / 100,
        }
    }
}

impl GenerateConfig {
    /// The configuration can be generated: the two signs fit in the dimension.
    pub open spec fn can_generate(&self) -> bool {
        2 * self.sparsity <= self.dimension
    }

    /// The configuration's vectors can be stored: every index fits in a u32.
    pub open spec fn can_store(&self) -> bool {
        self.dimension <= 0x1_0000_0000
    }

    /// The header of the configuration's dataset.
    pub open spec fn meta_view(&self) -> DatasetMeta {
        DatasetMeta { count: self.count, dimension: self.dimension as u64, seed: self.seed }
    }

    /// The vectors of the configuration's dataset.
    pub open spec fn vectors_view(&self) -> Seq<VecModel> {
        generated_vectors(
            self.seed,
            0,
            self.count as nat,
            self.dimension as nat,
            self.sparsity as nat,
        )
    }

    /// Every vector of the configuration's dataset is canonical, with
    /// `sparsity` coordinates of each sign below `dimension`.
    pub open spec fn well_shaped_vectors(&self) -> bool {
        forall|i: int|
            0 <= i < self.count ==> well_shaped(
                #[trigger] self.vectors_view()[i],
                self.dimension as nat,
                self.sparsity as nat,
            )
    }

    /// The file of the configuration's dataset.
    pub open spec fn file_view(&self) -> Seq<u8> {
        dataset_bytes(self.meta_view(), self.vectors_view())
    }
}

/// Generates the whole dataset into memory, in index order.
pub fn generate_dataset(config: &GenerateConfig) -> (r: Vec<SparseVec>)
    requires
        config.can_generate(),
        config.count <= usize::MAX,
    ensures
        models(r@) == config.vectors_view(),
        forall|i: int|
            0 <= i < r@.len() ==> well_shaped(
                #[trigger] r@[i]@,
                config.dimension as nat,
                config.sparsity as nat,
            ),
{
    let r = generate_range(config.seed, 0, config.count as usize, config.dimension, config.sparsity);
    assert(models(r@) =~= config.vectors_view());
    r
}

/// Whether every vector fits the record layout.
fn check_vectors(vectors: &Vec<SparseVec>) -> (r: bool)
    ensures
        r == all_encodable(models(vectors@)),
{
    let mut i: usize = 0;
    while i < vectors.len()
        invariant
            i <= vectors@.len(),
            forall|k: int| 0 <= k < i ==> encodable(#[trigger] models(vectors@)[k]),
        decreases vectors@.len() - i,
    {
        let mut probe: Vec<u8> = Vec::new();
        if write_vector(&mut probe, &vectors[i]).is_err() {
            assert(!encodable(models(vectors@)[i as int]));
            return false;
        }
        i = i + 1;
    }
    true
}

/// Appends the records of `vectors[from..]` to `out`.
fn write_records(out: &mut Vec<u8>, vectors: &Vec<SparseVec>)
    requires
        all_encodable(models(vectors@)),
    ensures
        final(out)@ == old(out)@ + records_bytes(models(vectors@)),
{
    let ghost start = out@;
    let ghost ms = models(vectors@);
    let mut i: usize = 0;
    while i < vectors.len()
        invariant
            i <= vectors@.len(),
            ms == models(vectors@),
            all_encodable(ms),
            out@ == start + records_bytes(ms.subrange(0, i as int)),
        decreases vectors@.len() - i,
    {
        assert(encodable(ms[i as int]));
        let _ = write_vector(out, &vectors[i]);
        i = i + 1;
        assert(ms.subrange(0, i as int).drop_last() =~= ms.subrange(0, i as int - 1));
        assert(out@ =~= start + records_bytes(ms.subrange(0, i as int)));
    }
    assert(ms.subrange(0, vectors@.len() as int) =~= ms);
}

/// Appends the dataset file of `vectors`: a header counting them, with the
/// dimension and seed of `config`, then their records. Fails, appending
/// nothing, where some vector does not fit the record layout.
pub fn write_dataset(out: &mut Vec<u8>, vectors: &Vec<SparseVec>, config: &GenerateConfig) -> (r:
    Result<(), DatasetError>)
    ensures
        r is Ok <==> all_encodable(models(vectors@)),
        r is Ok ==> final(out)@ == old(out)@ + dataset_bytes(
            DatasetMeta {
                count: vectors@.len() as u64,
                dimension: config.dimension as u64,
                seed: config.seed,
            },
            models(vectors@),
        ),
        r is Err ==> r == Err::<(), DatasetError>(DatasetError::NotEncodable) && final(out)@
            == old(out)@,
{
    if !check_vectors(vectors) {
        return Err(DatasetError::NotEncodable);
    }
    let ghost start = out@;
    write_header(out, vectors.len() as u64, config.dimension as u64, config.seed);
    write_records(out, vectors);
    assert(out@ =~= start + dataset_bytes(
        DatasetMeta {
            count: vectors@.len() as u64,
            dimension: config.dimension as u64,
            seed: config.seed,
        },
        models(vectors@),
    ));
    Ok(())
}

/// Reads the header of a dataset file: magic, version, count, dimension and
/// seed. The reserved bytes need not be present.
pub fn read_dataset_meta(bytes: &Vec<u8>) -> (r: Result<DatasetMeta, DatasetError>)
    ensures
        r == parse_header(bytes@, META_SIZE as int),
{
    read_header(bytes, META_SIZE)
}

/// Reads a whole dataset file: its header and every vector it counts.
pub fn load_dataset(bytes: &Vec<u8>) -> (r: Result<(DatasetMeta, Vec<SparseVec>), DatasetError>)
    ensures
        match r {
            Ok((meta, vs)) => parse_dataset(bytes@) == Ok::<
                (DatasetMeta, Seq<VecModel>),
                DatasetError,
            >((meta, models(vs@))),
            Err(e) => parse_dataset(bytes@) == Err::<(DatasetMeta, Seq<VecModel>), DatasetError>(
                e,
            ),
        },
{
    let meta = match read_header(bytes, HEADER_SIZE) {
        Ok(m) => m,
        Err(e) => {
            return Err(e);
        },
    };
    let len = bytes.len();
    let mut vectors: Vec<SparseVec> = Vec::new();
    let mut off: usize = HEADER_SIZE;
    let mut i: u64 = 0;
    while i < meta.count
        invariant
            parse_header(bytes@, HEADER_SIZE as int) == Ok::<DatasetMeta, DatasetError>(meta),
            i <= meta.count,
            off <= bytes@.len(),
            parse_records(bytes@, HEADER_SIZE as int, i as nat) == Some(
                (models(vectors@), off as int),
            ),
        decreases meta.count - i,
    {
        match read_record(bytes, off) {
            None => {
                assert(parse_records(bytes@, HEADER_SIZE as int, (i + 1) as nat) is None);
                proof {
                    lemma_records_none_later(bytes@, (i + 1) as nat, meta.count as nat);
                }
                return Err(DatasetError::Truncated);
            },
            Some((v, end)) => {
                let ghost before = models(vectors@);
                vectors.push(v);
                assert(models(vectors@) =~= before.push(v@));
                off = end;
                i = i + 1;
            },
        }
    }
    Ok((meta, vectors))
}

/// Once the records run out, they stay out.
proof fn lemma_records_none_later(b: Seq<u8>, n: nat, m: nat)
    requires
        n <= m,
        parse_records(b, HEADER_SIZE as int, n) is None,
    ensures
        parse_records(b, HEADER_SIZE as int, m) is None,
    decreases m - n,
{
    if n < m {
        lemma_records_none_later(b, n, (m - 1) as nat);
    }
}

/// The size in bytes of a dataset file of `count` vectors with `sparsity`
/// coordinates of each sign.
pub fn expected_file_size(count: u64, sparsity: usize) -> (r: u64)
    requires
        8 + 8 * sparsity <= u64::MAX,
        HEADER_SIZE + count * (8 + 8 * sparsity) <= u64::MAX,
    ensures
        r == HEADER_SIZE + count * (8 + 8 * sparsity),
{
    let per_vector: u64 = 8 + 8 * (sparsity as u64);
    proof {
        assert(count * (8 + 8 * sparsity) >= 0) by (nonlinear_arith);
        assert(count * per_vector == count * (8 + 8 * sparsity));
    }
    HEADER_SIZE as u64 + count * per_vector
}

/// The record at `index` of the file `b`: `None` where the file ends before
/// that record does.
pub open spec fn record_at(b: Seq<u8>, index: nat) -> Option<VecModel> {
    match parse_records(b, HEADER_SIZE as int, index + 1) {
        None => None,
        Some((ms, end)) => Some(ms.last()),
    }
}

/// Sequential reader over a dataset file: the header is checked on opening,
/// then the vectors come one at a time, or in batches, in index order, and
/// `reset` starts them over.
pub struct DatasetReader {
    meta: DatasetMeta,
    bytes: Vec<u8>,
    offset: usize,
    current_index: u64,
}

impl DatasetReader {
    /// The file being read.
    pub closed spec fn data(&self) -> Seq<u8> {
        self.bytes@
    }

    /// The header of the file.
    pub closed spec fn meta_view(&self) -> DatasetMeta {
        self.meta
    }

    /// The index of the next vector to be read.
    pub closed spec fn position(&self) -> nat {
        self.current_index as nat
    }

    /// The header is valid, and the reader stands just after the record
    /// before `position`.
    pub closed spec fn wf(&self) -> bool {
        &&& parse_header(self.bytes@, HEADER_SIZE as int) == Ok::<DatasetMeta, DatasetError>(
            self.meta,
        )
        &&& self.current_index <= self.meta.count
        &&& self.offset <= self.bytes@.len()
        &&& parse_records(self.bytes@, HEADER_SIZE as int, self.current_index as nat) matches Some(
            (ms, end),
        ) && end == self.offset
    }

    /// Opens a dataset file for reading: fails, reading nothing further, on
    /// a wrong magic or version, or a header cut short.
    pub fn open(bytes: Vec<u8>) -> (r: Result<Self, DatasetError>)
        ensures
            match r {
                Ok(rd) => {
                    &&& parse_header(bytes@, HEADER_SIZE as int) == Ok::<DatasetMeta, DatasetError>(
                        rd.meta_view(),
                    )
                    &&& rd.wf()
                    &&& rd.data() == bytes@
                    &&& rd.position() == 0
                },
                Err(e) => parse_header(bytes@, HEADER_SIZE as int) == Err::<
                    DatasetMeta,
                    DatasetError,
                >(e),
            },
    {
        match read_header(&bytes, HEADER_SIZE) {
            Ok(meta) => Ok(DatasetReader { meta, bytes, offset: HEADER_SIZE, current_index: 0 }),
            Err(e) => Err(e),
        }
    }

    /// The header of the file.
    pub fn meta(&self) -> (r: &DatasetMeta)
        ensures
            *r == self.meta_view(),
    {
        &self.meta
    }

    /// Reads the next vector: `None` once all the vectors that the header
    /// counts have been read; an error where the file ends inside the record.
    pub fn next_vector(&mut self) -> (r: Result<Option<SparseVec>, DatasetError>)
        requires
            old(self).wf(),
        ensures
            final(self).wf(),
            final(self).data() == old(self).data(),
            final(self).meta_view() == old(self).meta_view(),
            match r {
                Ok(None) => {
                    &&& old(self).position() >= old(self).meta_view().count
                    &&& final(self).position() == old(self).position()
                },
                Ok(Some(v)) => {
                    &&& old(self).position() < old(self).meta_view().count
                    &&& record_at(old(self).data(), old(self).position()) == Some(v@)
                    &&& final(self).position() == old(self).position() + 1
                },
                Err(e) => {
                    &&& old(self).position() < old(self).meta_view().count
                    &&& record_at(old(self).data(), old(self).position()) is None
                    &&& e == DatasetError::Truncated
                    &&& final(self).position() == old(self).position()
                },
            },
    {
        if self.current_index >= self.meta.count {
            return Ok(None);
        }
        match read_record(&self.bytes, self.offset) {
            None => Err(DatasetError::Truncated),
            Some((v, end)) => {
                self.offset = end;
                self.current_index = self.current_index + 1;
                Ok(Some(v))
            },
        }
    }

    /// Reads up to `batch_size` vectors: as many as remain, where fewer do.
    pub fn read_batch(&mut self, batch_size: usize) -> (r: Result<Vec<SparseVec>, DatasetError>)
        requires
            old(self).wf(),
        ensures
            final(self).wf(),
            final(self).data() == old(self).data(),
            final(self).meta_view() == old(self).meta_view(),
            ({
                let start = old(self).position();
                let remaining = old(self).meta_view().count - start;
                let n = if batch_size < remaining {
                    batch_size as int
                } else {
                    remaining
                };
                match r {
                    Ok(batch) => {
                        &&& batch@.len() == n
                        &&& forall|j: int|
                            0 <= j < n ==> record_at(old(self).data(), (start + j) as nat)
                                == Some(#[trigger] batch@[j]@)
                        &&& final(self).position() == start + n
                    },
                    Err(e) => {
                        &&& e == DatasetError::Truncated
                        &&& record_at(old(self).data(), (start + n - 1) as nat) is None
                    },
                }
            }),
    {
        let ghost start = self.position();
        let remaining: u64 = self.meta.count - self.current_index;
        let to_read: usize = if (batch_size as u64) < remaining {
            batch_size
        } else {
            remaining as usize
        };
        assert(to_read == (if batch_size < old(self).meta_view().count - start {
            batch_size as int
        } else {
            old(self).meta_view().count - start
        }));
        let mut batch: Vec<SparseVec> = Vec::new();
        let mut k: usize = 0;
        while k < to_read
            invariant
                self.wf(),
                self.data() == old(self).data(),
                self.meta_view() == old(self).meta_view(),
                start == old(self).position(),
                to_read == (if batch_size < old(self).meta_view().count - start {
                    batch_size as int
                } else {
                    old(self).meta_view().count - start
                }),
                k <= to_read,
                self.position() == start + k,
                batch@.len() == k,
                forall|j: int|
                    0 <= j < k ==> record_at(old(self).data(), (start + j) as nat) == Some(
                        #[trigger] batch@[j]@,
                    ),
            decreases to_read - k,
        {
            match self.next_vector() {
                Ok(Some(v)) => {
                    batch.push(v);
                },
                Ok(None) => {
                    assert(false);
                },
                Err(e) => {
                    proof {
                        lemma_record_none_later(
                            self.data(),
                            (start + k) as nat,
                            (start + to_read - 1) as nat,
                        );
                    }
                    return Err(e);
                },
            }
            k = k + 1;
        }
        Ok(batch)
    }

    /// Goes back to the first vector.
    pub fn reset(&mut self)
        requires
            old(self).wf(),
        ensures
            final(self).wf(),
            final(self).data() == old(self).data(),
            final(self).meta_view() == old(self).meta_view(),
            final(self).position() == 0,
    {
        self.offset = HEADER_SIZE;
        self.current_index = 0;
    }
}

/// Once a record is missing, so are all later ones.
proof fn lemma_record_none_later(b: Seq<u8>, i: nat, j: nat)
    requires
        i <= j,
        record_at(b, i) is None,
    ensures
        record_at(b, j) is None,
{
    lemma_records_none_later(b, i + 1, j + 1);
}

/// A vector of `sparsity` coordinates of each sign, all below a dimension of
/// at most 2^32, fits the record layout.
proof fn lemma_well_shaped_encodable(m: VecModel, dimension: nat, sparsity: nat)
    requires
        well_shaped(m, dimension, sparsity),
        2 * sparsity <= dimension <= 0x1_0000_0000,
    ensures
        encodable(m),
{
}

/// Produces a dataset file in chunks: first the header, then the records of
/// at most `batch_size` vectors per chunk, each batch generated in parallel
/// and kept in index order. Only one batch is held at a time.
pub struct StreamingWriter {
    config: GenerateConfig,
    batch_size: usize,
    next_index: usize,
    header_done: bool,
}

impl StreamingWriter {
    /// The configuration being written.
    pub closed spec fn config_view(&self) -> GenerateConfig {
        self.config
    }

    /// Most vectors per chunk.
    pub closed spec fn batch_view(&self) -> nat {
        self.batch_size as nat
    }

    /// Number of vectors whose records have been produced.
    pub closed spec fn position(&self) -> nat {
        self.next_index as nat
    }

    /// All the bytes produced so far.
    pub closed spec fn emitted(&self) -> Seq<u8> {
        if !self.header_done {
            Seq::empty()
        } else {
            header_bytes(self.config.count, self.config.dimension as u64, self.config.seed)
                + records_bytes(self.config.vectors_view().subrange(0, self.next_index as int))
        }
    }

    /// Number of chunks still to come.
    pub closed spec fn remaining(&self) -> nat {
        (if self.header_done {
            0nat
        } else {
            1nat
        }) + (self.config.count - self.next_index) as nat
    }

    /// The configuration can be generated and stored, at least one vector
    /// goes in a batch, and every vector produced so far is well shaped.
    pub closed spec fn wf(&self) -> bool {
        &&& self.config.can_generate()
        &&& self.config.can_store()
        &&& self.config.count <= usize::MAX
        &&& self.next_index <= self.config.count
        &&& self.batch_size >= 1
        &&& !self.header_done ==> self.next_index == 0
        &&& forall|i: int|
            0 <= i < self.next_index ==> well_shaped(
                #[trigger] self.config.vectors_view()[i],
                self.config.dimension as nat,
                self.config.sparsity as nat,
            )
    }

    /// A writer for the dataset of `config`, in batches of `batch_size`
    /// vectors (at least one). Fails where the dimension is over 2^32, as
    /// the indices would not fit the record layout.
    pub fn new(config: &GenerateConfig, batch_size: usize) -> (r: Result<Self, DatasetError>)
        requires
            config.can_generate(),
            config.count <= usize::MAX,
        ensures
            r is Ok <==> config.can_store(),
            match r {
                Ok(w) => {
                    &&& w.wf()
                    &&& w.config_view() == *config
                    &&& w.batch_view() == if batch_size == 0 {
                        1
                    } else {
                        batch_size as nat
                    }
                    &&& w.emitted() == Seq::<u8>::empty()
                    &&& w.position() == 0
                },
                Err(e) => e == DatasetError::NotEncodable,
            },
    {
        if config.dimension as u64 > 0x1_0000_0000u64 {
            return Err(DatasetError::NotEncodable);
        }
        let batch_size = if batch_size == 0 {
            1
        } else {
            batch_size
        };
        Ok(StreamingWriter { config: *config, batch_size, next_index: 0, header_done: false })
    }

    /// Whether every chunk has been produced.
    pub fn is_finished(&self) -> (r: bool)
        requires
            self.wf(),
        ensures
            r == (self.remaining() == 0),
    {
        self.header_done && self.next_index as u64 == self.config.count
    }

    /// The next chunk: the header first, then the records of the next batch;
    /// `None` once the whole file has been produced.
    pub fn next_chunk(&mut self) -> (r: Option<Vec<u8>>)
        requires
            old(self).wf(),
        ensures
            final(self).wf(),
            final(self).config_view() == old(self).config_view(),
            final(self).batch_view() == old(self).batch_view(),
            final(self).position() <= old(self).position() + old(self).batch_view(),
            match r {
                None => {
                    &&& old(self).remaining() == 0
                    &&& final(self).remaining() == 0
                    &&& final(self).emitted() == old(self).emitted()
                    &&& final(self).emitted() == final(self).config_view().file_view()
                    &&& final(self).config_view().well_shaped_vectors()
                },
                Some(chunk) => {
                    &&& old(self).remaining() > 0
                    &&& final(self).remaining() < old(self).remaining()
                    &&& final(self).emitted() == old(self).emitted() + chunk@
                },
            },
    {
        let ghost all = self.config.vectors_view();
        if !self.header_done {
            let mut chunk: Vec<u8> = Vec::new();
            write_header(&mut chunk, self.config.count, self.config.dimension as u64, self.config.seed);
            self.header_done = true;
            assert(all.subrange(0, 0) =~= Seq::<VecModel>::empty());
            assert(chunk@ =~= Seq::<u8>::empty() + chunk@);
            assert(self.emitted() =~= chunk@);
            return Some(chunk);
        }
        let count = self.config.count as usize;
        if self.next_index == count {
            proof {
                assert(all.subrange(0, count as int) =~= all);
            }
            return None;
        }
        let start = self.next_index;
        let end = if count - start < self.batch_size {
            count
        } else {
            start + self.batch_size
        };
        let batch = generate_range(
            self.config.seed,
            start,
            end,
            self.config.dimension,
            self.config.sparsity,
        );
        proof {
            assert forall|k: int| 0 <= k < batch@.len() implies encodable(
                #[trigger] models(batch@)[k],
            ) by {
                lemma_well_shaped_encodable(
                    batch@[k]@,
                    self.config.dimension as nat,
                    self.config.sparsity as nat,
                );
            }
            assert(models(batch@) =~= all.subrange(start as int, end as int));
            assert forall|i: int| 0 <= i < end implies well_shaped(
                #[trigger] all[i],
                self.config.dimension as nat,
                self.config.sparsity as nat,
            ) by {
                if i >= start {
                    assert(batch@[i - start]@ == all[i]);
                }
            }
        }
        let mut chunk: Vec<u8> = Vec::new();
        write_records(&mut chunk, &batch);
        let ghost before = self.emitted();
        self.next_index = end;
        proof {
            lemma_records_bytes_concat(
                all.subrange(0, start as int),
                all.subrange(start as int, end as int),
            );
            assert(all.subrange(0, start as int) + all.subrange(start as int, end as int)
                =~= all.subrange(0, end as int));
            assert(self.emitted() =~= before + chunk@);
        }
        Some(chunk)
    }
}

/// Appends the dataset file of `config`, generated and encoded in batches of
/// `batch_size` vectors. Fails, appending nothing, where the dimension is
/// over 2^32.
pub fn write_dataset_streaming(out: &mut Vec<u8>, config: &GenerateConfig, batch_size: usize) -> (r:
    Result<(), DatasetError>)
    requires
        config.can_generate(),
        config.count <= usize::MAX,
    ensures
        r is Ok <==> config.can_store(),
        r is Ok ==> final(out)@ == old(out)@ + config.file_view() && config.well_shaped_vectors(),
        r is Err ==> r == Err::<(), DatasetError>(DatasetError::NotEncodable) && final(out)@
            == old(out)@,
{
    let mut w = match StreamingWriter::new(config, batch_size) {
        Ok(w) => w,
        Err(e) => {
            return Err(e);
        },
    };
    let ghost start = out@;
    while !w.is_finished()
        invariant
            w.wf(),
            w.config_view() == *config,
            out@ == start + w.emitted(),
        decreases w.remaining(),
    {
        match w.next_chunk() {
            Some(chunk) => {
                let mut chunk = chunk;
                out.append(&mut chunk);
                assert(out@ =~= start + w.emitted());
            },
            None => {},
        }
    }
    let last = w.next_chunk();
    assert(last is None);
    Ok(())
}

/// Writing the vectors generated in memory, all at once, gives the same file
/// as the streaming writer, whatever its batch size.
pub proof fn lemma_streaming_matches_in_memory(config: GenerateConfig, vectors: Seq<SparseVec>)
    requires
        config.can_generate(),
        config.can_store(),
        models(vectors) == config.vectors_view(),
        forall|i: int|
            0 <= i < vectors.len() ==> well_shaped(
                #[trigger] vectors[i]@,
                config.dimension as nat,
                config.sparsity as nat,
            ),
    ensures
        all_encodable(models(vectors)),
        dataset_bytes(
            DatasetMeta {
                count: vectors.len() as u64,
                dimension: config.dimension as u64,
                seed: config.seed,
            },
            models(vectors),
        ) == config.file_view(),
{
    assert forall|i: int| 0 <= i < models(vectors).len() implies encodable(
        #[trigger] models(vectors)[i],
    ) by {
        lemma_well_shaped_encodable(
            vectors[i]@,
            config.dimension as nat,
            config.sparsity as nat,
        );
    }
    assert(models(vectors).len() == config.count);
}

/// Vectors read back from a file of generated vectors are the vectors
/// written, and canonical: both lists strictly ascending, and disjoint.
pub proof fn lemma_decoded_canonical(meta: DatasetMeta, ms: Seq<VecModel>, dimension: nat, sparsity: nat)
    requires
        2 * sparsity <= dimension <= 0x1_0000_0000,
        meta.count == ms.len(),
        forall|i: int| 0 <= i < ms.len() ==> well_shaped(#[trigger] ms[i], dimension, sparsity),
    ensures
        parse_dataset(dataset_bytes(meta, ms)) == Ok::<(DatasetMeta, Seq<VecModel>), DatasetError>(
            (meta, ms),
        ),
        forall|i: int| 0 <= i < ms.len() ==> is_canonical(#[trigger] ms[i]),
{
    assert forall|i: int| 0 <= i < ms.len() implies encodable(#[trigger] ms[i]) by {
        lemma_well_shaped_encodable(ms[i], dimension, sparsity);
    }
    lemma_round_trip(meta, ms);
}

/// The file of a configuration reads back as its header and its vectors,
/// each canonical.
pub proof fn lemma_generated_file_round_trip(config: GenerateConfig)
    requires
        config.can_generate(),
        config.can_store(),
        config.well_shaped_vectors(),
    ensures
        parse_dataset(config.file_view()) == Ok::<(DatasetMeta, Seq<VecModel>), DatasetError>(
            (config.meta_view(), config.vectors_view()),
        ),
        forall|i: int|
            0 <= i < config.vectors_view().len() ==> is_canonical(
                #[trigger] config.vectors_view()[i],
            ),
{
    lemma_decoded_canonical(
        config.meta_view(),
        config.vectors_view(),
        config.dimension as nat,
        config.sparsity as nat,
    );
}

/// A reader sent back by `reset` stands where a freshly opened reader of the
/// same file stands: same file, same header, first vector next. Every later
/// read depends on these alone, so each pass yields the same vectors.
pub proof fn lemma_reset_matches_open(opened: DatasetReader, rewound: DatasetReader)
    requires
        opened.wf(),
        rewound.wf(),
        opened.data() == rewound.data(),
        opened.position() == 0,
        rewound.position() == 0,
    ensures
        opened.meta_view() == rewound.meta_view(),
{
}

} // verus!
