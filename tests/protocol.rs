use fuzzy_fe::authority::{check_incomming_vectors, handle_instance_request, SERVER_MAX_LEN};
use fuzzy_fe::client::{comparison_request, ClientSession, ClientStep};
use fuzzy_fe::comparator::Comparator;
use fuzzy_fe::compressed::CompressedDdhFeSecretKey;
use fuzzy_fe::compute::{split_batches, ComputeSession};
use fuzzy_fe::fe::{DdhFeInstance, DdhFeSecretKey};
use fuzzy_fe::fuzzy_hashes::FHVector;
use fuzzy_fe::messages::{EncryptionResponse, HashComparisonRequest, ProtocolError};
use rand::rngs::StdRng;
use rand::SeedableRng;

fn digest(seed: u8) -> [u8; 32] {
    let mut h = [0u8; 32];
    for (i, b) in h.iter_mut().enumerate() {
        *b = (i as u8).wrapping_mul(37).wrapping_add(seed);
    }
    h
}

/// Runs a whole comparison in one process: authority, compute server and client.
fn run_comparison(corpus: &[[u8; 32]], client_digest: [u8; 32]) -> i16 {
    let mut rng = StdRng::seed_from_u64(99);
    let hashes: Vec<FHVector> = corpus.iter().map(|h| FHVector::from_digest(*h)).collect();
    let mut keys = Vec::new();
    for batch in split_batches(&hashes) {
        let response = handle_instance_request(&batch, &mut rng).unwrap();
        keys.push(response.decompress().unwrap());
    }
    let mut compute = ComputeSession::new(keys);
    let fh = FHVector::from_digest(client_digest);
    assert_eq!(comparison_request(&fh), HashComparisonRequest::NILSIMSA);
    let mut client = ClientSession::new(&fh);
    let mut client_rng = StdRng::seed_from_u64(100);
    loop {
        let request = compute.next_request();
        match client.on_request(&request, &mut client_rng) {
            ClientStep::Finished(score) => return score,
            ClientStep::Reply(response) => compute.on_response(response),
        }
    }
}

#[test]
fn one_hash_corpus_equal_to_client_scores_128() {
    let h0 = digest(3);
    assert_eq!(run_comparison(&[h0], h0), 128);
}

#[test]
fn empty_corpus_scores_i16_min() {
    assert_eq!(run_comparison(&[], digest(1)), i16::MIN);
}

#[test]
fn complement_of_client_scores_minus_128() {
    let h0 = digest(3);
    let mut inverse = h0;
    for b in inverse.iter_mut() {
        *b ^= 0xff;
    }
    assert_eq!(run_comparison(&[inverse], h0), -128);
}

#[test]
fn two_bits_apart_scores_126() {
    let h0 = digest(3);
    let mut near = h0;
    near[0] ^= 0b1000_0001;
    assert_eq!(run_comparison(&[near], h0), 126);
}

#[test]
fn identical_digests_compare_to_128() {
    let h = digest(21);
    let fh = FHVector::from_digest(h);
    let bits: [u8; 512] = fh.to_bits::<512>().unwrap();
    let mut rng = StdRng::seed_from_u64(1);
    let instance = DdhFeInstance::<512>::new_with_rng(&mut rng);
    let sk = instance.secret_key_gen(bits);
    let ct = instance.get_public_key().encrypt(&mut rng, bits);
    assert_eq!(sk.compare(&ct), Some(128));
}

#[test]
fn complementary_digests_compare_to_minus_128() {
    let h = digest(8);
    let mut not_h = h;
    for b in not_h.iter_mut() {
        *b = !*b;
    }
    let y: [u8; 512] = FHVector::from_digest(h).to_bits::<512>().unwrap();
    let x: [u8; 512] = FHVector::from_digest(not_h).to_bits::<512>().unwrap();
    let mut rng = StdRng::seed_from_u64(2);
    let instance = DdhFeInstance::<512>::new_with_rng(&mut rng);
    let sk = instance.secret_key_gen(y);
    let ct = instance.get_public_key().encrypt(&mut rng, x);
    assert_eq!(sk.compare(&ct), Some(-128));
}

#[test]
fn test_correctness() {
    // 256-bit digests as bit vectors, each concatenated with its complement.
    let secret_vec: [u8; 256] = core::array::from_fn(|i| (i % 2) as u8);
    let secret_client_vec: [u8; 256] = core::array::from_fn(|i| ((i / 3) % 2) as u8);
    let differing: i16 =
        secret_vec.iter().zip(secret_client_vec).map(|(a, b)| (*a != b) as i16).sum();
    let expected_score = 128 - differing;
    let y: [u8; 512] =
        core::array::from_fn(|i| if i < 256 { secret_vec[i] } else { 1 - secret_vec[i % 256] });
    let x: [u8; 512] = core::array::from_fn(|i| {
        if i < 256 {
            secret_client_vec[i]
        } else {
            1 - secret_client_vec[i % 256]
        }
    });
    let instance = DdhFeInstance::<512>::new().unwrap();
    let pk = instance.get_public_key();
    let sk = instance.secret_key_gen(y);
    let mut rng = StdRng::from_entropy();
    let ct = pk.encrypt(&mut rng, x);
    assert_eq!(sk.compare(&ct), Some(expected_score));
}

#[test]
fn authority_refuses_oversized_and_empty_batches() {
    let v = FHVector::from_digest(digest(0));
    let mut rng = StdRng::seed_from_u64(4);
    let too_many = vec![v; SERVER_MAX_LEN];
    assert!(matches!(
        handle_instance_request(&too_many, &mut rng),
        Err(ProtocolError::TooManyVectors)
    ));
    let more = vec![v; SERVER_MAX_LEN + 3];
    assert_eq!(check_incomming_vectors(&more), Err(ProtocolError::TooManyVectors));
    assert_eq!(check_incomming_vectors(&Vec::new()), Err(ProtocolError::EmptyRequest));
    assert!(matches!(
        handle_instance_request(&Vec::new(), &mut rng),
        Err(ProtocolError::EmptyRequest)
    ));
    assert_eq!(check_incomming_vectors(&vec![v; SERVER_MAX_LEN - 1]), Ok(()));
    assert_eq!(check_incomming_vectors(&vec![v]), Ok(()));
}

#[test]
fn authority_answers_each_vector() {
    let vs = vec![FHVector::from_digest(digest(1)), FHVector::from_digest(digest(2))];
    let mut rng = StdRng::seed_from_u64(6);
    let response = handle_instance_request(&vs, &mut rng).unwrap();
    assert_eq!(response.1.len(), 2);
    assert_eq!(response.1[0].x.len(), 64);
    // The packed vector is the request's vector itself.
    match vs[0] {
        FHVector::NilsimsaVector(bytes) => assert_eq!(response.1[0].x, bytes.to_vec()),
    }
    let (pk, sks) = response.decompress().unwrap();
    assert_eq!(pk.mpk.len(), 512);
    assert_eq!(sks.len(), 2);
}

#[test]
fn compression_round_trip() {
    let mut rng = StdRng::seed_from_u64(8);
    let inst = DdhFeInstance::<12>::new_with_rng(&mut rng);
    let y = [1u8, 0, 1, 1, 0, 0, 0, 1, 1, 1, 0, 1];
    let sk = inst.secret_key_gen(y);
    let c = CompressedDdhFeSecretKey::from_secret_key(&sk);
    assert_eq!(c.x, vec![0b1011_0001, 0b1101_0000]);
    assert_eq!(c.sx, sk.sx);
    let back: DdhFeSecretKey<12> = DdhFeSecretKey::try_from_compressed(&c).unwrap();
    assert_eq!(back.g, sk.g);
    assert_eq!(back.sx, sk.sx);
    assert_eq!(back.tx, sk.tx);
    assert_eq!(back.x, sk.x);
}

#[test]
fn decompression_refuses_bad_keys() {
    let mut rng = StdRng::seed_from_u64(9);
    let inst = DdhFeInstance::<16>::new_with_rng(&mut rng);
    let sk = inst.secret_key_gen([0u8; 16]);
    let mut c = CompressedDdhFeSecretKey::from_secret_key(&sk);
    c.x.push(0);
    assert!(DdhFeSecretKey::<16>::try_from_compressed(&c).is_err());
    c.x.pop();
    assert!(DdhFeSecretKey::<16>::try_from_compressed(&c).is_ok());
    c.g = [0xff; 32];
    assert!(DdhFeSecretKey::<16>::try_from_compressed(&c).is_err());
}

#[test]
fn batches_hold_at_most_511() {
    let v = FHVector::from_digest(digest(0));
    let corpus = vec![v; 1023];
    let batches = split_batches(&corpus);
    assert_eq!(batches.iter().map(|b| b.len()).collect::<Vec<_>>(), vec![511, 511, 1]);
    assert_eq!(split_batches(&vec![v; 511]).len(), 1);
    assert!(split_batches(&Vec::new()).is_empty());
}

#[test]
fn client_keeps_best_reported_score() {
    let fh = FHVector::from_digest(digest(5));
    let mut client = ClientSession::new(&fh);
    let mut rng = StdRng::seed_from_u64(10);
    let req = fuzzy_fe::messages::EncryptionRequest { pk: None, similarity_score: Some(-3) };
    assert!(matches!(client.on_request(&req, &mut rng), ClientStep::Finished(-3)));
    let req = fuzzy_fe::messages::EncryptionRequest { pk: None, similarity_score: Some(-7) };
    assert!(matches!(client.on_request(&req, &mut rng), ClientStep::Finished(-3)));
    let req = fuzzy_fe::messages::EncryptionRequest { pk: None, similarity_score: None };
    assert!(matches!(client.on_request(&req, &mut rng), ClientStep::Finished(-3)));
}

#[test]
fn compute_session_ends_on_request() {
    let mut compute = ComputeSession::new(Vec::new());
    let req = compute.next_request();
    assert!(req.pk.is_none());
    assert_eq!(req.similarity_score, Some(i16::MIN));
    let mut rng = StdRng::seed_from_u64(12);
    let vs = vec![FHVector::from_digest(digest(1))];
    let keys = vec![handle_instance_request(&vs, &mut rng).unwrap().decompress().unwrap()];
    compute = ComputeSession::new(keys);
    assert!(compute.next_request().pk.is_some());
    compute.on_response(EncryptionResponse::EndOfComparison);
    assert!(compute.finished);
    assert!(compute.next_request().pk.is_none());
}

#[test]
fn response_with_bad_key_is_refused() {
    let vs = vec![FHVector::from_digest(digest(1))];
    let mut rng = StdRng::seed_from_u64(14);
    let mut response = handle_instance_request(&vs, &mut rng).unwrap();
    response.1[0].x.pop();
    assert!(matches!(response.decompress(), Err(ProtocolError::Decompression)));
}
