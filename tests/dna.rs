use syncbox::dna::{find_sub, subsequences1, subsequences2, subsequences3, DNAIter, SimpleDNAIter};

#[test]
fn find_sub_first_match() {
    assert_eq!(find_sub("AACCGGTAACC", "A1-1,C2-4"), Some((1, "ACC")));
    assert_eq!(find_sub("GGGG", "A1-1,C2-4"), None);
}

#[test]
fn find_sub_takes_at_most_the_maximum() {
    assert_eq!(find_sub("AAAACCCCCC", "A1-3,C1-2"), Some((1, "AAACC")));
}

#[test]
fn subsequences_scan_left_to_right() {
    let found = subsequences1("AACCGGTAACC", "A1-1,C2-4");
    assert_eq!(found, vec![(1, "ACC"), (8, "ACC")]);
    let spans = subsequences3("AACCGGTAACC", "A1-1,C1-4");
    assert_eq!(spans, vec![(1, 4), (8, 11)]);
}

#[test]
fn simple_iterator_resumes_after_each_match() {
    let mut it = SimpleDNAIter::new("ACGTACGTACGTACGT", "A1-1,C1-1");
    assert_eq!(it.next(), Some((0, "AC")));
    assert_eq!(it.next(), Some((4, "AC")));
    assert_eq!(it.next(), Some((8, "AC")));
    assert_eq!(it.next(), Some((12, "AC")));
    assert_eq!(it.next(), None);
}

#[test]
fn dna_iterator_finds_long_matches() {
    let mut it = DNAIter::new("ACGTACGTAAACCCGTACGT", "A1-3,C1-2");
    let mut long = vec![];
    while let Some((pos, sub)) = it.next() {
        if sub.len() >= 5 {
            long.push((pos, sub));
        }
    }
    assert_eq!(long, vec![(8, "AAACC")]);
}

#[test]
fn subsequences_of_several_patterns() {
    let seqs = ["A1-1,C2-4", "G1-1,T1-4"];
    let found = subsequences2("AACCGGTAACC", &seqs);
    assert_eq!(
        found,
        vec![(1, "ACC", "A1-1,C2-4"), (8, "ACC", "A1-1,C2-4"), (5, "GT", "G1-1,T1-4")]
    );
}
