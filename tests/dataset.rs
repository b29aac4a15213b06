use embeddenator_contract_bench::codec::DatasetError;
use embeddenator_contract_bench::dataset::{
    expected_file_size, generate_dataset, load_dataset, read_dataset_meta, write_dataset,
    write_dataset_streaming, DatasetReader, GenerateConfig, StreamingWriter,
};
use embeddenator_contract_bench::generate::{generate_vector, per_vector_seed, SEED_MIXER};
use embeddenator_contract_bench::vector::SparseVec;

fn file_of(vectors: &Vec<SparseVec>, config: &GenerateConfig) -> Vec<u8> {
    let mut bytes = Vec::new();
    write_dataset(&mut bytes, vectors, config).unwrap();
    bytes
}

fn streamed_file(config: &GenerateConfig, batch_size: usize) -> Vec<u8> {
    let mut bytes = Vec::new();
    write_dataset_streaming(&mut bytes, config, batch_size).unwrap();
    bytes
}

fn small_config(count: u64, seed: u64) -> GenerateConfig {
    GenerateConfig {
        count,
        dimension: 64,
        seed,
        sparsity: 5,
    }
}

#[test]
fn test_generate_deterministic() {
    let config = GenerateConfig {
        count: 100,
        seed: 42,
        ..Default::default()
    };

    let vecs1 = generate_dataset(&config);
    let vecs2 = generate_dataset(&config);

    assert_eq!(vecs1.len(), vecs2.len());
    for (v1, v2) in vecs1.iter().zip(vecs2.iter()) {
        assert_eq!(v1.pos, v2.pos);
        assert_eq!(v1.neg, v2.neg);
    }
}

#[test]
fn test_write_and_read() {
    let config = GenerateConfig {
        count: 50,
        seed: 123,
        ..Default::default()
    };

    let vectors = generate_dataset(&config);
    let bytes = file_of(&vectors, &config);
    let (meta, loaded) = load_dataset(&bytes).unwrap();

    assert_eq!(meta.count, 50);
    assert_eq!(meta.seed, 123);
    assert_eq!(loaded.len(), vectors.len());

    for (orig, loaded) in vectors.iter().zip(loaded.iter()) {
        assert_eq!(orig.pos, loaded.pos);
        assert_eq!(orig.neg, loaded.neg);
    }
}

#[test]
fn test_streaming_reader() {
    let config = GenerateConfig {
        count: 25,
        seed: 999,
        ..Default::default()
    };

    let vectors = generate_dataset(&config);
    let bytes = file_of(&vectors, &config);

    let mut reader = DatasetReader::open(bytes).unwrap();
    assert_eq!(reader.meta().count, 25);

    let mut count = 0;
    while let Some(vec) = reader.next_vector().unwrap() {
        assert_eq!(vec.pos, vectors[count].pos);
        assert_eq!(vec.neg, vectors[count].neg);
        count += 1;
    }
    assert_eq!(count, 25);
}

#[test]
fn test_batch_reading() {
    let config = GenerateConfig {
        count: 100,
        seed: 456,
        ..Default::default()
    };

    let vectors = generate_dataset(&config);
    let bytes = file_of(&vectors, &config);

    let mut reader = DatasetReader::open(bytes).unwrap();
    let batch = reader.read_batch(30).unwrap();
    assert_eq!(batch.len(), 30);

    for (i, vec) in batch.iter().enumerate() {
        assert_eq!(vec.pos, vectors[i].pos);
    }
}

#[test]
fn test_streaming_writer_matches_in_memory() {
    let config = GenerateConfig {
        count: 250,
        seed: 2026,
        ..Default::default()
    };

    let vectors = generate_dataset(&config);
    let bytes_mem = file_of(&vectors, &config);
    let bytes_stream = streamed_file(&config, 64);

    let (_m1, v1) = load_dataset(&bytes_mem).unwrap();
    let (_m2, v2) = load_dataset(&bytes_stream).unwrap();

    assert_eq!(v1.len(), v2.len());
    for (a, b) in v1.iter().zip(v2.iter()) {
        assert_eq!(a.pos, b.pos);
        assert_eq!(a.neg, b.neg);
    }
}

#[test]
fn vector_seven_same_in_memory_and_streamed() {
    let config = GenerateConfig {
        count: 8,
        dimension: 10000,
        seed: 42,
        sparsity: 100,
    };
    let in_memory = generate_dataset(&config);
    let alone = generate_vector(42, 7, 10000, 100);
    assert_eq!(in_memory[7], alone);
    for batch_size in [1usize, 4096] {
        let (_, streamed) = load_dataset(&streamed_file(&config, batch_size)).unwrap();
        assert_eq!(streamed[7], alone);
    }
}

#[test]
fn generated_vectors_are_canonical() {
    let config = small_config(40, 7);
    let vectors = generate_dataset(&config);
    let (_, decoded) = load_dataset(&file_of(&vectors, &config)).unwrap();
    for v in vectors.iter().chain(decoded.iter()) {
        assert_eq!(v.pos.len(), 5);
        assert_eq!(v.neg.len(), 5);
        assert!(v.pos.windows(2).all(|w| w[0] < w[1]));
        assert!(v.neg.windows(2).all(|w| w[0] < w[1]));
        assert!(v.pos.iter().all(|p| !v.neg.contains(p)));
        assert!(v.pos.iter().chain(v.neg.iter()).all(|&i| i < 64));
    }
}

#[test]
fn generated_vectors_are_shuffled_not_leading_coordinates() {
    let v = generate_vector(42, 0, 10000, 100);
    let leading: Vec<usize> = (0..100).collect();
    assert_ne!(v.pos, leading);
    let next: Vec<usize> = (100..200).collect();
    assert_ne!(v.neg, next);
}

#[test]
fn nearby_indices_give_different_vectors() {
    let a = generate_vector(5, 0, 1000, 10);
    let b = generate_vector(5, 1, 1000, 10);
    assert_ne!(a, b);
}

#[test]
fn dataset_order_matches_index() {
    let config = small_config(30, 11);
    let vectors = generate_dataset(&config);
    for (i, v) in vectors.iter().enumerate() {
        assert_eq!(*v, generate_vector(11, i, 64, 5));
    }
}

#[test]
fn per_vector_seed_formula() {
    assert_eq!(per_vector_seed(0, 0), 0);
    assert_eq!(per_vector_seed(1, 0), SEED_MIXER);
    assert_eq!(per_vector_seed(0, 3), SEED_MIXER.wrapping_mul(3));
    assert_eq!(per_vector_seed(u64::MAX, 1), 0);
    assert_eq!(per_vector_seed(u64::MAX, 2), SEED_MIXER);
}

#[test]
fn streamed_file_is_byte_identical() {
    let config = small_config(33, 77);
    let vectors = generate_dataset(&config);
    let whole = file_of(&vectors, &config);
    for batch_size in [0usize, 1, 7, 33, 4096] {
        assert_eq!(streamed_file(&config, batch_size), whole);
    }
}

#[test]
fn streaming_writer_chunks_follow_batches() {
    let config = small_config(10, 3);
    let mut writer = StreamingWriter::new(&config, 4).unwrap();
    let mut sizes = Vec::new();
    let mut all = Vec::new();
    while let Some(chunk) = writer.next_chunk() {
        sizes.push(chunk.len());
        all.extend_from_slice(&chunk);
    }
    assert!(writer.is_finished());
    let record = 8 + 8 * 5;
    assert_eq!(sizes, vec![68, 4 * record, 4 * record, 2 * record]);
    assert_eq!(all, streamed_file(&config, 4));
}

#[test]
fn header_layout() {
    let config = small_config(0, 0x0102);
    let bytes = file_of(&Vec::new(), &config);
    assert_eq!(bytes.len(), 68);
    assert_eq!(&bytes[0..8], b"EMBR_DST");
    assert_eq!(&bytes[8..12], &[1, 0, 0, 0]);
    assert_eq!(&bytes[12..20], &[0; 8]);
    assert_eq!(&bytes[20..28], &[64, 0, 0, 0, 0, 0, 0, 0]);
    assert_eq!(&bytes[28..36], &[2, 1, 0, 0, 0, 0, 0, 0]);
    assert!(bytes[36..68].iter().all(|&b| b == 0));
}

#[test]
fn record_layout() {
    let v = SparseVec { pos: vec![3, 70000], neg: vec![5] };
    let config = small_config(1, 0);
    let bytes = file_of(&vec![v], &config);
    assert_eq!(
        &bytes[68..],
        &[2, 0, 0, 0, 3, 0, 0, 0, 0x70, 0x11, 1, 0, 1, 0, 0, 0, 5, 0, 0, 0]
    );
}

#[test]
fn round_trip_keeps_meta_and_vectors() {
    let config = small_config(50, 123);
    let vectors = generate_dataset(&config);
    let bytes = file_of(&vectors, &config);
    let (meta, loaded) = load_dataset(&bytes).unwrap();
    assert_eq!(meta.count, 50);
    assert_eq!(meta.dimension, 64);
    assert_eq!(meta.seed, 123);
    assert_eq!(loaded, vectors);
    assert_eq!(read_dataset_meta(&bytes).unwrap(), meta);
}

#[test]
fn empty_dataset_round_trip() {
    let config = small_config(0, 9);
    let bytes = streamed_file(&config, 16);
    let (meta, loaded) = load_dataset(&bytes).unwrap();
    assert_eq!(meta.count, 0);
    assert!(loaded.is_empty());
    let mut reader = DatasetReader::open(bytes).unwrap();
    assert_eq!(reader.next_vector().unwrap(), None);
    assert!(reader.read_batch(5).unwrap().is_empty());
}

#[test]
fn reset_gives_three_identical_passes() {
    let config = small_config(25, 999);
    let vectors = generate_dataset(&config);
    let mut reader = DatasetReader::open(file_of(&vectors, &config)).unwrap();
    for _ in 0..3 {
        let mut seen = Vec::new();
        while let Some(v) = reader.next_vector().unwrap() {
            seen.push(v);
        }
        assert_eq!(seen, vectors);
        reader.reset();
    }
}

#[test]
fn reset_after_partial_read() {
    let config = small_config(10, 4);
    let vectors = generate_dataset(&config);
    let mut reader = DatasetReader::open(file_of(&vectors, &config)).unwrap();
    let first = reader.read_batch(4).unwrap();
    assert_eq!(first, vectors[..4].to_vec());
    reader.reset();
    let all = reader.read_batch(100).unwrap();
    assert_eq!(all, vectors);
    assert!(reader.read_batch(100).unwrap().is_empty());
}

#[test]
fn bad_magic_is_rejected() {
    let config = small_config(3, 1);
    let mut bytes = file_of(&generate_dataset(&config), &config);
    bytes[0] = b'X';
    assert_eq!(load_dataset(&bytes).unwrap_err(), DatasetError::InvalidMagic);
    assert_eq!(read_dataset_meta(&bytes).unwrap_err(), DatasetError::InvalidMagic);
    assert_eq!(DatasetReader::open(bytes).err(), Some(DatasetError::InvalidMagic));
}

#[test]
fn unknown_version_is_rejected() {
    let config = small_config(3, 1);
    let mut bytes = file_of(&generate_dataset(&config), &config);
    bytes[8] = 2;
    assert_eq!(
        load_dataset(&bytes).unwrap_err(),
        DatasetError::UnsupportedVersion(2)
    );
    assert_eq!(
        read_dataset_meta(&bytes).unwrap_err(),
        DatasetError::UnsupportedVersion(2)
    );
    assert_eq!(
        DatasetReader::open(bytes).err(),
        Some(DatasetError::UnsupportedVersion(2))
    );
}

#[test]
fn nonzero_reserved_bytes_are_ignored() {
    let config = small_config(2, 8);
    let vectors = generate_dataset(&config);
    let mut bytes = file_of(&vectors, &config);
    bytes[40] = 0xff;
    let (_, loaded) = load_dataset(&bytes).unwrap();
    assert_eq!(loaded, vectors);
}

#[test]
fn truncated_files_are_rejected() {
    let config = small_config(3, 1);
    let bytes = file_of(&generate_dataset(&config), &config);
    assert_eq!(load_dataset(&bytes[..5].to_vec()).unwrap_err(), DatasetError::Truncated);
    assert_eq!(load_dataset(&bytes[..40].to_vec()).unwrap_err(), DatasetError::Truncated);
    assert!(read_dataset_meta(&bytes[..36].to_vec()).is_ok());
    assert_eq!(
        read_dataset_meta(&bytes[..35].to_vec()).unwrap_err(),
        DatasetError::Truncated
    );
    let cut = bytes[..bytes.len() - 1].to_vec();
    assert_eq!(load_dataset(&cut).unwrap_err(), DatasetError::Truncated);
    let mut reader = DatasetReader::open(cut).unwrap();
    assert!(reader.next_vector().unwrap().is_some());
    assert!(reader.next_vector().unwrap().is_some());
    assert_eq!(reader.next_vector().unwrap_err(), DatasetError::Truncated);
}

#[test]
fn oversized_index_is_not_encodable() {
    let config = small_config(1, 0);
    let v = SparseVec { pos: vec![1usize << 32], neg: vec![] };
    let mut bytes = vec![7u8];
    assert_eq!(
        write_dataset(&mut bytes, &vec![v], &config),
        Err(DatasetError::NotEncodable)
    );
    assert_eq!(bytes, vec![7u8]);
    let wide = GenerateConfig { count: 1, dimension: (1usize << 32) + 2, seed: 0, sparsity: 1 };
    let mut out = Vec::new();
    assert_eq!(
        write_dataset_streaming(&mut out, &wide, 8),
        Err(DatasetError::NotEncodable)
    );
    assert!(out.is_empty());
    assert!(StreamingWriter::new(&wide, 8).is_err());
}

#[test]
fn file_size_matches_formula() {
    let config = small_config(12, 5);
    let bytes = streamed_file(&config, 5);
    assert_eq!(expected_file_size(12, 5), bytes.len() as u64);
    assert_eq!(expected_file_size(0, 100), 68);
    assert_eq!(expected_file_size(10_000, 100), 68 + 10_000 * 808);
}

#[test]
fn default_config() {
    let config = GenerateConfig::default();
    assert_eq!(config.count, 10_000);
    assert_eq!(config.dimension, 10_000);
    assert_eq!(config.seed, 42);
    assert_eq!(config.sparsity, 100);
}
