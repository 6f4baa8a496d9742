use consensus_reads::base::{allele_code_of, weight_of};
use consensus_reads::caller::call_column;
use consensus_reads::clusters::{clusterer_input, parse_clusters, parse_index, split_bytes};
use consensus_reads::consensus::{consensus_read, SeqRead};
use consensus_reads::error::{ConfigIssue, ConsensusError, ProtocolIssue};
use consensus_reads::group::PairCall;
use consensus_reads::naming::{hash_indices, read_name, sort_indices};
use consensus_reads::order::{bytes_lt, order_by_representative};
use consensus_reads::overlap::{choose_overlap, flip_reads};
use consensus_reads::params::{check_compression, format_pipeline_params, is_gz_path, mode_of, Mode};
use consensus_reads::pipeline::{call_group, compose_members, prepare_records, seq_probes, umi_probes, PairTable};

fn read(seq: &str, qual: &str) -> SeqRead {
    SeqRead { seq: seq.as_bytes().to_vec(), qual: qual.as_bytes().to_vec() }
}

fn pair(f: (&str, &str), r: (&str, &str)) -> (SeqRead, SeqRead) {
    (read(f.0, f.1), read(r.0, r.1))
}

fn table(pairs: Vec<(SeqRead, SeqRead)>) -> PairTable {
    match prepare_records(&pairs, 4, false) {
        Ok(t) => t,
        Err(e) => panic!("{:?}", e),
    }
}

fn mates(t: &PairTable, members: Vec<usize>) -> (String, SeqRead, SeqRead) {
    let out = call_group(t, &members, &Mode::NonOverlap, false);
    match out.call {
        PairCall::Mates(a, b) => (out.id, a, b),
        PairCall::Merged(_) => panic!("merged in plain mode"),
    }
}

fn text(v: &[u8]) -> String {
    String::from_utf8(v.to_vec()).unwrap()
}

#[test]
fn identical_pairs_give_one_consensus() {
    let t = table(vec![
        pair(("ACGTAAAAA", "IIIIIIIII"), ("CCCCC", "IIIII")),
        pair(("ACGTAAAAA", "IIIIIIIII"), ("CCCCC", "IIIII")),
    ]);
    assert_eq!(t.len, 5);
    let (_, a, b) = mates(&t, vec![0, 1]);
    assert_eq!(text(&a.seq), "AAAAA");
    assert_eq!(text(&b.seq), "CCCCC");
    assert!(a.qual.iter().all(|&q| q >= b'I'));
    assert!(b.qual.iter().all(|&q| q >= b'I'));
}

#[test]
fn disagreement_breaks_tie_toward_a_and_lowers_quality() {
    let t = table(vec![
        pair(("ACGTAAAAA", "IIIIIIIII"), ("CCCCC", "IIIII")),
        pair(("ACGTATAAA", "IIIIIIIII"), ("CCCCC", "IIIII")),
    ]);
    let (_, a, _) = mates(&t, vec![0, 1]);
    assert_eq!(text(&a.seq), "AAAAA");
    assert!(a.qual[1] < a.qual[0]);
    assert_eq!(a.qual[1], b'$');
    assert_eq!(a.qual[0], b'I');
}

#[test]
fn all_n_column_gives_n_at_quality_zero() {
    let t = table(vec![pair(("ACGTNNNNN", "IIII!!!!!"), ("CCCCC", "IIIII"))]);
    let (_, a, b) = mates(&t, vec![0]);
    assert_eq!(text(&a.seq), "NNNNN");
    assert_eq!(text(&a.qual), "!!!!!");
    assert_eq!(text(&b.seq), "CCCCC");
    assert_eq!(text(&b.qual), "IIIII");
}

#[test]
fn overlapping_pair_merges_to_eight_bases() {
    let t = table(vec![pair(("ACGTAAACC", "IIIIIIIII"), ("CCCGG", "IIIII"))]);
    assert_eq!(choose_overlap(&b"AAACC".to_vec(), &b"CCGGG".to_vec(), 8, 1), Some(2));
    let out = call_group(&t, &vec![0], &Mode::Overlap { insert_size: 8, std_dev: 1 }, false);
    match out.call {
        PairCall::Merged(m) => {
            assert_eq!(m.seq.len(), 5 + 5 - 2);
            assert_eq!(text(&m.seq), "AAACCGGG");
            assert_eq!(m.qual.len(), 8);
        },
        PairCall::Mates(_, _) => panic!("not merged"),
    }
}

#[test]
fn poor_overlap_keeps_mates_apart() {
    let t = table(vec![pair(("ACGTAAAAA", "IIIIIIIII"), ("AAAAA", "IIIII"))]);
    let out = call_group(&t, &vec![0], &Mode::Overlap { insert_size: 8, std_dev: 0 }, false);
    match out.call {
        PairCall::Mates(a, b) => {
            assert_eq!(text(&a.seq), "AAAAA");
            assert_eq!(text(&b.seq), "AAAAA");
        },
        PairCall::Merged(_) => panic!("merged"),
    }
}

#[test]
fn similar_umis_cluster_into_one_consensus() {
    let t = table(vec![
        pair(("ACGTAAAAA", "IIIIIIIII"), ("CCCCC", "IIIII")),
        pair(("ACGAAAAAA", "IIIIIIIII"), ("CCCCC", "IIIII")),
    ]);
    let umis = umi_probes(&t);
    assert_eq!(clusterer_input(&umis), b"ACGT\nACGA\n".to_vec());
    let umi_clusters = parse_clusters(&b"ACGT\t2\t1,2\n".to_vec(), 2).unwrap();
    assert_eq!(umi_clusters.len(), 1);
    let members = &umi_clusters[0].members;
    let probes = seq_probes(&t, members);
    assert_eq!(clusterer_input(&probes), b"AAAAACCCCC\nAAAAACCCCC\n".to_vec());
    let seq_clusters = parse_clusters(&b"AAAAACCCCC\t2\t2,1\n".to_vec(), 2).unwrap();
    assert_eq!(seq_clusters.len(), 1);
    let group = compose_members(members, &seq_clusters[0].members);
    assert_eq!(group, vec![1, 0]);
    let (_, a, b) = mates(&t, group);
    assert_eq!(text(&a.seq), "AAAAA");
    assert_eq!(text(&b.seq), "CCCCC");
}

#[test]
fn mixed_gzip_inputs_are_a_config_error() {
    let outs = vec![b"o1.fq".to_vec(), b"o2.fq".to_vec()];
    match check_compression(b"fq1.gz", b"fq2", &outs) {
        Err(ConsensusError::Config { issue: ConfigIssue::MixedCompression }) => {},
        other => panic!("{:?}", other),
    }
    let mixed_outs = vec![b"o1.fq.gz".to_vec(), b"o2.fq".to_vec()];
    assert!(check_compression(b"a.fq", b"b.fq", &mixed_outs).is_err());
    let gz_outs = vec![b"o1.fq.gz".to_vec(), b"o2.fq.gz".to_vec()];
    assert_eq!(check_compression(b"a.gz", b"b.gz", &gz_outs).unwrap(), (true, true));
    assert_eq!(check_compression(b"a.fq", b"b.fq", &outs).unwrap(), (false, false));
    assert!(is_gz_path(b"x.gz"));
    assert!(!is_gz_path(b"gz"));
}

#[test]
fn single_read_is_kept() {
    let t = table(vec![pair(("ACGTACGTA", "IIII+5?IA"), ("TTGCA", "#+5?I"))]);
    let (_, a, b) = mates(&t, vec![0]);
    assert_eq!(text(&a.seq), "ACGTA");
    assert_eq!(text(&b.seq), "TTGCA");
    for (q_out, q_in) in a.qual.iter().zip(b"+5?IA".iter()).chain(b.qual.iter().zip(b"#+5?I".iter())) {
        assert!(*q_out as i32 >= (*q_in).min(b'I' + 1) as i32 - 1);
    }
}

#[test]
fn agreeing_quality_grows_with_group_size() {
    let mut obs: Vec<(u8, u8)> = vec![(b'G', b'+')];
    let mut last = call_column(&obs);
    assert_eq!(last.0, b'G');
    for _ in 0..5 {
        obs.push((b'G', b'+'));
        let next = call_column(&obs);
        assert_eq!(next.0, b'G');
        assert!(next.1 >= last.1);
        last = next;
    }
    assert_eq!(last.1, b'I');
}

#[test]
fn agreeing_group_round_trip() {
    let reads = vec![read("ACGGT", "55555"), read("ACGGT", "?????")];
    let c = consensus_read(&reads, 5);
    assert_eq!(text(&c.seq), "ACGGT");
    let again = consensus_read(&vec![c], 5);
    assert_eq!(text(&again.seq), "ACGGT");
}

#[test]
fn column_quality_values() {
    assert_eq!(call_column(&vec![(b'A', b'I')]), (b'A', b'I'));
    assert_eq!(call_column(&vec![(b'C', b'+')]), (b'C', 33 + 10));
    assert_eq!(call_column(&vec![(b'T', b'+'), (b'T', b'+')]), (b'T', 33 + 24));
    assert_eq!(call_column(&vec![(b'A', b'+'), (b'C', b'5')]), (b'C', 33 + 11));
    assert_eq!(call_column(&vec![(b'N', b'I'), (b'g', b'+')]), (b'G', 33 + 10));
    assert_eq!(call_column(&vec![]), (b'N', b'!'));
    assert_eq!(call_column(&vec![(b'A', b'#')]), (b'A', 33 + 2));
    assert_eq!(call_column(&vec![(b'A', b'"')]), (b'C', 33 + 2));
    for q in 2u8..=40 {
        assert_eq!(call_column(&vec![(b'G', q + 33)]), (b'G', q + 33));
    }
}

#[test]
fn base_codes_and_weights() {
    assert_eq!(allele_code_of(b'a'), 0);
    assert_eq!(allele_code_of(b'T'), 3);
    assert_eq!(allele_code_of(b'N'), 4);
    assert_eq!(weight_of(b'!'), 0);
    assert_eq!(weight_of(b'"'), -110);
    assert_eq!(weight_of(b'+'), 1431);
    assert_eq!(weight_of(b'I'), 4477);
}

#[test]
fn reverse_mates_are_flipped() {
    let f = flip_reads(&vec![read("ACGTNa", "!#+5?I")]);
    assert_eq!(text(&f[0].seq), "tNACGT");
    assert_eq!(text(&f[0].qual), "I?5+#!");
}

#[test]
fn pipeline_params_text() {
    let s = format_pipeline_params(8, 2, 1, true, false, Some(300), Some(25));
    assert_eq!(
        s,
        "Pipeline did not finish correctly. It was run with sequence distance 2 and UMI distance 1.\n\
         UMIs are the first 8 characters of the reverse read.\n\
         Read names are written in short format.\n\
         Run in overlap mode with insert size 300 and std deviation 25."
    );
    let s = format_pipeline_params(12, 0, 10, false, true, None, None);
    assert_eq!(
        s,
        "Pipeline did not finish correctly. It was run with sequence distance 0 and UMI distance 10.\n\
         UMIs are the first 12 characters of the forward read.\n\
         Read names are written in verbose format.\n\
         Run in normal mode without overlaps."
    );
    let s = format_pipeline_params(5, 1, 1, false, false, Some(3), None);
    assert!(s.ends_with("\nInvalid mode."));
}

#[test]
fn mode_selection() {
    assert_eq!(mode_of(Some(300), Some(20)).unwrap(), Mode::Overlap { insert_size: 300, std_dev: 20 });
    assert_eq!(mode_of(None, None).unwrap(), Mode::NonOverlap);
    match mode_of(Some(300), None) {
        Err(ConsensusError::Config { issue: ConfigIssue::IncompleteOverlapParams }) => {},
        other => panic!("{:?}", other),
    }
    assert!(mode_of(None, Some(3)).is_err());
}

#[test]
fn clusterer_answer_errors() {
    let bad_line = parse_clusters(&b"ACGT\t2\n".to_vec(), 2);
    assert!(matches!(bad_line, Err(ConsensusError::ClustererProtocol { issue: ProtocolIssue::MalformedLine { line: 0 } })));
    let out_of_range = parse_clusters(&b"ACGT\t2\t1,3\n".to_vec(), 2);
    assert!(matches!(out_of_range, Err(ConsensusError::ClustererProtocol { issue: ProtocolIssue::MalformedLine { line: 0 } })));
    let duplicate = parse_clusters(&b"A\t1\t1\nC\t2\t1,2\n".to_vec(), 2);
    assert!(matches!(duplicate, Err(ConsensusError::ClustererProtocol { issue: ProtocolIssue::DuplicateIndex { index: 0 } })));
    let missing = parse_clusters(&b"A\t1\t2\n".to_vec(), 2);
    assert!(matches!(missing, Err(ConsensusError::ClustererProtocol { issue: ProtocolIssue::MissingIndex { index: 0 } })));
    let no_newline = parse_clusters(&b"A\t1\t1".to_vec(), 1);
    assert!(matches!(no_newline, Err(ConsensusError::ClustererProtocol { .. })));
    let empty = parse_clusters(&Vec::new(), 0).unwrap();
    assert!(empty.is_empty());
    assert_eq!(parse_index(&b"0".to_vec(), 5), None);
    assert_eq!(parse_index(&b"5".to_vec(), 5), Some(4));
    assert_eq!(parse_index(&b"12".to_vec(), 20), Some(11));
    assert_eq!(parse_index(&b"1x".to_vec(), 20), None);
    assert_eq!(parse_index(&b"99999999999999999999999".to_vec(), 20), None);
}

#[test]
fn clusters_partition_the_records() {
    let cs = parse_clusters(&b"AC\t2\t3,1\nGG\t1\t2\n".to_vec(), 3).unwrap();
    assert_eq!(text(&cs[0].representative), "AC");
    assert_eq!(cs[0].members, vec![2, 0]);
    assert_eq!(cs[1].members, vec![1]);
    let mut seen = vec![0; 3];
    for c in &cs {
        for &m in &c.members {
            seen[m] += 1;
        }
    }
    assert_eq!(seen, vec![1, 1, 1]);
    assert_eq!(split_bytes(&b"a,,b".to_vec(), b','), vec![b"a".to_vec(), vec![], b"b".to_vec()]);
}

#[test]
fn read_names() {
    let sorted = sort_indices(&vec![7, 2, 5]);
    assert_eq!(sorted, vec![2, 5, 7]);
    let mut h: u64 = 14695981039346656037;
    for x in [2u64, 5, 7] {
        h = (h ^ x).wrapping_mul(1099511628211);
    }
    assert_eq!(hash_indices(&sorted), h);
    let short = read_name(&sorted, false);
    assert_eq!(short, format!("consensus-{:016x}", h));
    assert_eq!(read_name(&sorted, true), format!("consensus-{:016x}:3:2,5,7", h));
}

#[test]
fn group_names_follow_sorted_members() {
    let t = table(vec![
        pair(("ACGTAAAAA", "IIIIIIIII"), ("CCCCC", "IIIII")),
        pair(("ACGTAAAAA", "IIIIIIIII"), ("CCCCC", "IIIII")),
    ]);
    let a = call_group(&t, &vec![1, 0], &Mode::NonOverlap, true);
    let b = call_group(&t, &vec![0, 1], &Mode::NonOverlap, true);
    assert_eq!(a.id, b.id);
    assert!(a.id.ends_with(":2:0,1"));
}

#[test]
fn same_input_same_output() {
    let make = || {
        table(vec![
            pair(("ACGTAGAAA", "IIII5I+II"), ("CCGCC", "II#II")),
            pair(("ACGTAAAAT", "IIIIII5II"), ("CCCCC", "IIIII")),
        ])
    };
    let a = call_group(&make(), &vec![0, 1], &Mode::Overlap { insert_size: 9, std_dev: 2 }, false);
    let b = call_group(&make(), &vec![0, 1], &Mode::Overlap { insert_size: 9, std_dev: 2 }, false);
    assert_eq!(a.id, b.id);
    let bytes = |c: &PairCall| match c {
        PairCall::Mates(x, y) => vec![x.seq.clone(), x.qual.clone(), y.seq.clone(), y.qual.clone()],
        PairCall::Merged(m) => vec![m.seq.clone(), m.qual.clone()],
    };
    assert_eq!(bytes(&a.call), bytes(&b.call));
}

#[test]
fn record_preparation_errors() {
    let short_umi = prepare_records(&vec![pair(("ACG", "III"), ("CCCCC", "IIIII"))], 4, false);
    assert!(matches!(short_umi, Err(ConsensusError::LengthMismatch { index: 0 })));
    let unequal = prepare_records(&vec![pair(("ACGTAAAA", "IIIIIIII"), ("CCCCC", "IIIII"))], 4, false);
    assert!(matches!(unequal, Err(ConsensusError::LengthMismatch { index: 0 })));
    let second = prepare_records(
        &vec![pair(("ACGTAAAAA", "IIIIIIIII"), ("CCCCC", "IIIII")), pair(("ACGTAAAA", "IIIIIIII"), ("CCCC", "IIII"))],
        4,
        false,
    );
    assert!(matches!(second, Err(ConsensusError::LengthMismatch { index: 1 })));
    let bad_base = prepare_records(&vec![pair(("ACGTAAXAA", "IIIIIIIII"), ("CCCCC", "IIIII"))], 4, false);
    assert!(matches!(bad_base, Err(ConsensusError::Config { issue: ConfigIssue::UnknownBase { index: 0, base: b'X' } })));
    let bad_qual = prepare_records(&vec![pair(("ACGTAAAAA", "IIIIIIIII"), ("CCCCC", "II II"))], 4, false);
    assert!(matches!(bad_qual, Err(ConsensusError::Config { issue: ConfigIssue::BadQuality { index: 0, byte: b' ' } })));
    let rev = prepare_records(&vec![pair(("AAAAA", "IIIII"), ("GGTTCCCCC", "IIIIIIIII"))], 4, true).unwrap();
    assert_eq!(text(&rev.umis[0]), "GGTT");
    assert_eq!(text(&rev.fwds[0].seq), "AAAAA");
    assert_eq!(text(&rev.revs[0].seq), "CCCCC");
    let empty = prepare_records(&Vec::new(), 4, false).unwrap();
    assert_eq!(empty.fwds.len(), 0);
}

#[test]
fn clusters_ordered_by_representative() {
    let cs = parse_clusters(&b"GA\t1\t1\nAC\t1\t2\nA\t1\t3\nAC\t1\t4\n".to_vec(), 4).unwrap();
    assert_eq!(order_by_representative(&cs), vec![2, 1, 3, 0]);
    assert!(bytes_lt(&b"A".to_vec(), &b"AC".to_vec()));
    assert!(!bytes_lt(&b"AC".to_vec(), &b"AC".to_vec()));
    assert!(bytes_lt(&b"AC".to_vec(), &b"G".to_vec()));
}
