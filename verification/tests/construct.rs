use merkle_tree::{Data, MerkleTree};
use sha2::{Digest, Sha256};

fn sample() -> Vec<Data> {
    vec![
        vec![0, 1, 3, 200, 200, 201, 230],
        vec![0, 1, 4, 200, 200, 201, 230],
        vec![0, 1, 42, 230, 200, 201, 230],
        vec![0, 1, 25, 200, 200, 201, 230],
    ]
}

fn numbered(n: u8) -> Vec<Data> {
    (0..n).map(|i| vec![i]).collect()
}

fn sha(bytes: &[u8]) -> Vec<u8> {
    Sha256::digest(bytes).to_vec()
}

fn sha_pair(left: &[u8], right: &[u8]) -> Vec<u8> {
    let mut joined: Vec<u8> = left.to_vec();
    joined.extend_from_slice(right);
    sha(&joined)
}

#[test]
fn construct_correct() {
    let data: Vec<Data> = vec![
        vec![0, 1, 3, 200, 200, 201, 230],
        vec![0, 1, 4, 200, 200, 201, 230],
        vec![0, 1, 42, 230, 200, 201, 230],
        vec![0, 1, 25, 200, 200, 201, 230],
    ];

    let merkle_tree = MerkleTree::construct(&data);
    assert!(merkle_tree.root_hash().len() == 32);

    assert!(merkle_tree.tree().len() == 3);
    assert!(merkle_tree.tree().first().unwrap().len() == 4);
}

#[test]
fn single_block_root_is_its_digest() {
    let data: Vec<Data> = vec![vec![0, 1, 2, 3, 4, 5, 6, 7]];
    let tree = MerkleTree::construct(&data);
    assert_eq!(
        hex::encode(tree.root_hash()),
        "8a851ff82ee7048ad09ec3847f1ddf44944104d2cbd17ef4e3db22c6785a0d45"
    );
    assert_eq!(tree.root_hash(), &sha(&[0, 1, 2, 3, 4, 5, 6, 7]));
    assert_eq!(tree.tree().len(), 1);
    assert_eq!(tree.tree()[0].len(), 1);
    assert_eq!(&tree.tree()[0][0], tree.root_hash());
}

#[test]
fn four_blocks_every_level() {
    let tree = MerkleTree::construct(&sample());
    let levels = tree.tree();
    let as_hex: Vec<Vec<String>> = levels
        .iter()
        .map(|level| level.iter().map(|h| hex::encode(h)).collect())
        .collect();
    assert_eq!(
        as_hex,
        vec![
            vec![
                "840650ac51eb2f6e9e1b94e8a4ffe8ae67d4338fbc2ee0a7479967fc19da48c9".to_string(),
                "9364c475f0b640edfb24de96dfd3c850b7ea7a5d1d2700bc84590f1ad52f0f83".to_string(),
                "aac0f9120895b643f8a12a901acef0abb0f1df6d9316babd93b88cc9c3d6ca65".to_string(),
                "a62f6baa6703f08822fc240295e7c90111fb1bb72a225eb212af07448cff7c49".to_string(),
            ],
            vec![
                "1dc2df957d8dbe95fa3909741146574d65d5cad942b1daf64420491add382bec".to_string(),
                "b29ebd7f6f0ba92a9aeda7d3247efe2af2e94b799916764134be36a6cd4dbf78".to_string(),
            ],
            vec!["c9e1bf071cabc866dab6d9395334ed8e922a127032bb46fc8f3da7d12517a054".to_string()],
        ]
    );
    assert_eq!(
        hex::encode(tree.root_hash()),
        "c9e1bf071cabc866dab6d9395334ed8e922a127032bb46fc8f3da7d12517a054"
    );
}

#[test]
fn leaves_are_block_digests_in_order() {
    let data = sample();
    let tree = MerkleTree::construct(&data);
    let leaves = &tree.tree()[0];
    assert_eq!(leaves.len(), data.len());
    for i in 0..data.len() {
        assert_eq!(leaves[i], sha(&data[i]));
    }
}

#[test]
fn pairs_overlap() {
    let data = sample();
    let tree = MerkleTree::construct(&data);
    let levels = tree.tree();
    let l0 = &levels[0];
    assert_eq!(levels[1].len(), 2);
    assert_eq!(levels[1][0], sha_pair(&l0[0], &l0[1]));
    assert_eq!(levels[1][1], sha_pair(&l0[1], &l0[2]));
    assert_ne!(levels[1][1], sha_pair(&l0[2], &l0[3]));
    assert_eq!(levels[2].len(), 1);
    assert_eq!(levels[2][0], sha_pair(&levels[1][0], &levels[1][1]));
}

#[test]
fn odd_level_drops_its_upper_part() {
    let three: Vec<Data> = vec![vec![1], vec![2], vec![3]];
    let two: Vec<Data> = vec![vec![1], vec![2]];
    let tree3 = MerkleTree::construct(&three);
    let tree2 = MerkleTree::construct(&two);
    assert_eq!(tree3.tree().len(), 2);
    assert_eq!(tree3.tree()[0].len(), 3);
    assert_eq!(tree3.tree()[1].len(), 1);
    assert_eq!(tree3.root_hash(), tree2.root_hash());
    assert_eq!(tree3.root_hash(), &sha_pair(&sha(&[1]), &sha(&[2])));
}

#[test]
fn last_block_of_four_does_not_reach_the_root() {
    let mut data = sample();
    let root = MerkleTree::construct(&data).root_hash().clone();
    data[3] = vec![9, 9, 9];
    assert_eq!(MerkleTree::construct(&data).root_hash(), &root);
    data[2] = vec![9, 9, 9];
    assert_ne!(MerkleTree::construct(&data).root_hash(), &root);
}

#[test]
fn empty_input_gives_one_empty_level_and_an_empty_root() {
    let data: Vec<Data> = vec![];
    let tree = MerkleTree::construct(&data);
    assert_eq!(tree.tree().len(), 1);
    assert_eq!(tree.tree()[0].len(), 0);
    assert_eq!(tree.root_hash().len(), 0);
}

#[test]
fn empty_block_is_hashed_like_any_other() {
    let data: Vec<Data> = vec![vec![]];
    let tree = MerkleTree::construct(&data);
    assert_eq!(
        hex::encode(tree.root_hash()),
        "e3b0c44298fc1c149afbf4c8996fb92427ae41e4649b934ca495991b7852b855"
    );
}

#[test]
fn same_blocks_same_root() {
    let first = MerkleTree::construct(&sample());
    let second = MerkleTree::construct(&sample());
    assert_eq!(first.root_hash(), second.root_hash());
    assert_eq!(first.tree(), second.tree());
}

#[test]
fn order_of_two_blocks_changes_the_root() {
    let ab: Vec<Data> = vec![vec![1, 2, 3], vec![4, 5, 6]];
    let ba: Vec<Data> = vec![vec![4, 5, 6], vec![1, 2, 3]];
    let root_ab = MerkleTree::construct(&ab).root_hash().clone();
    let root_ba = MerkleTree::construct(&ba).root_hash().clone();
    assert_ne!(root_ab, root_ba);
    assert_eq!(
        hex::encode(&root_ab),
        "37d9df62eb4ebe3a69d7eb54d6f8f515a09a84c1e743c87a87143c36f81f9faf"
    );
    assert_eq!(
        hex::encode(&root_ba),
        "be61d8fd61d6597bead3365808439961b009fbf1aa03332067328653af3b122f"
    );
}

#[test]
fn level_lengths_halve_rounding_down() {
    let cases: Vec<(u8, Vec<usize>)> = vec![
        (1, vec![1]),
        (2, vec![2, 1]),
        (3, vec![3, 1]),
        (4, vec![4, 2, 1]),
        (5, vec![5, 2, 1]),
        (6, vec![6, 3, 1]),
        (7, vec![7, 3, 1]),
        (8, vec![8, 4, 2, 1]),
        (9, vec![9, 4, 2, 1]),
        (15, vec![15, 7, 3, 1]),
        (16, vec![16, 8, 4, 2, 1]),
        (17, vec![17, 8, 4, 2, 1]),
        (33, vec![33, 16, 8, 4, 2, 1]),
    ];
    for (n, expected) in cases {
        let tree = MerkleTree::construct(&numbered(n));
        let lengths: Vec<usize> = tree.tree().iter().map(|level| level.len()).collect();
        assert_eq!(lengths, expected, "{} blocks", n);
    }
}

#[test]
fn level_count_is_floor_log2_plus_one() {
    for n in 1u8..=200 {
        let tree = MerkleTree::construct(&numbered(n));
        let expected: usize = (n.ilog2() + 1) as usize;
        assert_eq!(tree.tree().len(), expected, "{} blocks", n);
    }
}

#[test]
fn level_count_matches_rounded_up_logarithm_on_powers_of_two_only() {
    for n in 2u32..=200 {
        let tree = MerkleTree::construct(&numbered(n as u8));
        let rounded_up: usize = (n - 1).ilog2() as usize + 1;
        if n.is_power_of_two() {
            assert_eq!(tree.tree().len(), rounded_up + 1, "{} blocks", n);
        } else {
            assert_eq!(tree.tree().len(), rounded_up, "{} blocks", n);
        }
    }
}

#[test]
fn every_digest_has_thirty_two_bytes() {
    let tree = MerkleTree::construct(&numbered(21));
    for level in tree.tree() {
        for hash in level {
            assert_eq!(hash.len(), merkle_tree::DIGEST_LEN);
        }
    }
    assert_eq!(merkle_tree::DIGEST_LEN, 32);
}

#[test]
fn root_is_the_one_digest_of_the_top_level() {
    for n in 1u8..=40 {
        let tree = MerkleTree::construct(&numbered(n));
        let top = tree.tree().last().unwrap();
        assert_eq!(top.len(), 1);
        assert_eq!(&top[0], tree.root_hash());
    }
}

#[test]
fn blocks_are_left_as_they_were() {
    let data = sample();
    let copy = data.clone();
    let _ = MerkleTree::construct(&data);
    assert_eq!(data, copy);
}

#[test]
fn trees_built_side_by_side_are_independent() {
    let inputs: Vec<Vec<Data>> = (1u8..=12).map(numbered).collect();
    let trees: Vec<MerkleTree> = inputs.iter().map(|data| MerkleTree::construct(data)).collect();
    for (data, tree) in inputs.iter().zip(trees.iter()) {
        let alone = MerkleTree::construct(data);
        assert_eq!(tree.tree(), alone.tree());
        assert_eq!(tree.root_hash(), alone.root_hash());
        assert_eq!(tree.tree()[0].len(), data.len());
    }
}
