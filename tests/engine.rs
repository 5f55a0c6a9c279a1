use hashassin::chain::{Chain, ChainConfig, ConfigError, RainbowTable};
use hashassin::crack::{crack_line, Crack};
use hashassin::digest::{HashErrors, HashGenerator};
use hashassin::reduce::{checked_keyspace, reduction};
use hashassin::table::{ChainTable, TableError};

fn md5(p: &str) -> [u8; 16] {
    HashGenerator::new(p.to_string(), "Md5".to_string()).hash_password().unwrap()
}

fn hex(d: &[u8; 16]) -> String {
    d.iter().map(|b| format!("{:02x}", b)).collect()
}

fn all_passwords(radix: u8, len: u32) -> Vec<String> {
    let mut out = vec![String::new()];
    for _ in 0..len {
        let mut next = Vec::new();
        for p in &out {
            for d in 0..radix {
                next.push(format!("{}{}", p, (b'a' + d) as char));
            }
        }
        out = next;
    }
    out
}

#[test]
fn md5_of_known_strings() {
    assert_eq!(hex(&md5("")), "d41d8cd98f00b204e9800998ecf8427e");
    assert_eq!(hex(&md5("abc")), "900150983cd24fb0d6963f7d28e17f72");
}

#[test]
fn unsupported_algorithm_is_an_error() {
    let g = HashGenerator::new("abc".to_string(), "Sha1".to_string());
    assert_eq!(g.hash_password(), Err(HashErrors::UnsupportedAlgorithm));
}

#[test]
fn reduction_of_zero_digest_is_all_zero_digits() {
    assert_eq!(reduction(&[0u8; 16], 0, 4, 2), "aa");
}

#[test]
fn reduction_reads_digest_little_endian() {
    let mut d = [0u8; 16];
    d[0] = 1;
    assert_eq!(reduction(&d, 0, 4, 2), "ba");
    let mut e = [0u8; 16];
    e[1] = 1;
    // 256 = 4^4, so 256 mod 4^2 = 0
    assert_eq!(reduction(&e, 0, 4, 2), "aa");
    assert_eq!(reduction(&e, 0, 26, 2), "wj");
}

#[test]
fn reduction_adds_the_column() {
    assert_eq!(reduction(&[0u8; 16], 5, 4, 2), "bb");
    assert_eq!(reduction(&[0u8; 16], 16, 4, 2), "aa");
    assert_ne!(reduction(&md5("aa"), 0, 4, 2), reduction(&md5("aa"), 1, 4, 2));
}

#[test]
fn reduction_pads_to_full_length() {
    let mut d = [0u8; 16];
    d[0] = 1;
    assert_eq!(reduction(&d, 0, 26, 3), "baa");
    assert_eq!(reduction(&d, 0, 26, 6).len(), 6);
}

#[test]
fn reduction_wraps_at_the_top_of_the_digest_range() {
    // (2^128 - 1) + 1 = 2^128, a multiple of 16
    assert_eq!(reduction(&[0xffu8; 16], 1, 4, 2), "aa");
    assert_eq!(reduction(&[0xffu8; 16], 0, 4, 2), "dd");
}

#[test]
fn reduction_stays_in_alphabet() {
    for col in 0..50u128 {
        let r = reduction(&md5(&format!("x{}", col)), col, 5, 7);
        assert_eq!(r.chars().count(), 7);
        assert!(r.chars().all(|c| ('a'..='e').contains(&c)));
    }
}

#[test]
fn keyspace_limits() {
    assert_eq!(checked_keyspace(4, 2), Some(16));
    assert_eq!(checked_keyspace(26, 27), Some(26u128.pow(27)));
    assert_eq!(checked_keyspace(26, 28), None);
    assert_eq!(checked_keyspace(1, 1000), Some(1));
}

#[test]
fn config_errors() {
    let md5 = || "Md5".to_string();
    assert_eq!(ChainConfig::new(0, 2, 4, md5()).err(), Some(ConfigError::ZeroLinks));
    assert_eq!(ChainConfig::new(2, 0, 4, md5()).err(), Some(ConfigError::ZeroPasswordLength));
    assert_eq!(ChainConfig::new(2, 2, 0, md5()).err(), Some(ConfigError::RadixOutOfRange));
    assert_eq!(ChainConfig::new(2, 2, 27, md5()).err(), Some(ConfigError::RadixOutOfRange));
    assert_eq!(ChainConfig::new(2, 28, 26, md5()).err(), Some(ConfigError::KeyspaceTooLarge));
    assert_eq!(
        ChainConfig::new(2, 2, 4, "Sha1".to_string()).err(),
        Some(ConfigError::UnsupportedAlgorithm)
    );
    let c = ChainConfig::new(3, 2, 4, md5()).ok().unwrap();
    assert_eq!((c.num_links(), c.password_length(), c.radix(), c.algorithm()), (3, 2, 4, "Md5"));
}

#[test]
fn chain_end_replays_hash_and_reduce() {
    let t = RainbowTable::new(2, 2, 4, "Md5".to_string()).ok().unwrap();
    let chain = t.generate_chain("aa".to_string()).unwrap();
    let p1 = reduction(&md5("aa"), 0, 4, 2);
    let p2 = reduction(&md5(&p1), 1, 4, 2);
    assert_eq!(chain.first_pass(), "aa");
    assert_eq!(chain.last_pass(), p2);
}

#[test]
fn chain_generation_is_deterministic() {
    let t = RainbowTable::new(5, 4, 26, "Md5".to_string()).ok().unwrap();
    let a = t.clone().generate_chain("qwer".to_string()).unwrap();
    let b = t.generate_chain("qwer".to_string()).unwrap();
    assert_eq!(a.last_pass(), b.last_pass());
}

#[test]
fn helper_replays_columns() {
    let crack = Crack::new(3, 2, 4, "Md5".to_string(), ChainTable::new()).ok().unwrap();
    assert_eq!(crack.helper(0, "ab".to_string()).unwrap(), "ab");
    let p1 = reduction(&md5("ab"), 0, 4, 2);
    assert_eq!(crack.helper(1, "ab".to_string()).unwrap(), p1);
}

#[test]
fn single_link_round_trip() {
    for start in all_passwords(3, 2) {
        let t = RainbowTable::new(1, 2, 3, "Md5".to_string()).ok().unwrap();
        let mut table = ChainTable::new();
        table.insert_chain(t.generate_chain(start.clone()).unwrap());
        let crack = Crack::new(1, 2, 3, "Md5".to_string(), table).ok().unwrap();
        assert_eq!(crack.crack(&md5(&start)).unwrap(), start);
    }
}

#[test]
fn crack_completeness_on_small_universe() {
    let t = RainbowTable::new(2, 2, 4, "Md5".to_string()).ok().unwrap();
    let universe = all_passwords(4, 2);
    let mut table = ChainTable::new();
    let mut ends = Vec::new();
    for p in &universe {
        let chain = t.clone().generate_chain(p.clone()).unwrap();
        ends.push(chain.last_pass().to_string());
        table.insert_chain(chain);
    }
    let kept: Vec<bool> = universe
        .iter()
        .zip(ends.iter())
        .map(|(p, e)| table.lookup(e) == Some(p.as_str()))
        .collect();
    let crack = Crack::new(2, 2, 4, "Md5".to_string(), table).ok().unwrap();
    let mut solved = 0;
    for (i, p) in universe.iter().enumerate() {
        let target = md5(p);
        match crack.crack(&target) {
            Ok(found) => {
                assert_eq!(md5(&found), target);
                solved += 1;
            }
            Err(e) => {
                assert_eq!(e, HashErrors::NotInRainbowTable);
                assert!(!kept[i], "start {} is in the table but was not recovered", p);
            }
        }
    }
    assert!(solved >= kept.iter().filter(|k| **k).count());
}

#[test]
fn digest_outside_the_keyspace_is_not_in_table() {
    let t = RainbowTable::new(2, 2, 4, "Md5".to_string()).ok().unwrap();
    let mut table = ChainTable::new();
    for p in all_passwords(4, 2) {
        table.insert_chain(t.clone().generate_chain(p).unwrap());
    }
    let crack = Crack::new(2, 2, 4, "Md5".to_string(), table).ok().unwrap();
    assert_eq!(crack.crack(&md5("zzzzz")), Err(HashErrors::NotInRainbowTable));
    assert_eq!(crack.crack(&md5("e")), Err(HashErrors::NotInRainbowTable));
}

#[test]
fn empty_table_cracks_nothing() {
    let crack = Crack::new(3, 2, 4, "Md5".to_string(), ChainTable::new()).ok().unwrap();
    assert_eq!(crack.crack(&md5("ab")), Err(HashErrors::NotInRainbowTable));
}

#[test]
fn crack_constructor_reports_config_errors() {
    let r = Crack::new(1, 2, 4, "Nope".to_string(), ChainTable::new());
    assert_eq!(r.err(), Some(ConfigError::UnsupportedAlgorithm));
    let r = RainbowTable::new(0, 2, 4, "Md5".to_string());
    assert_eq!(r.err(), Some(ConfigError::ZeroLinks));
}

#[test]
fn two_links_four_letters_example() {
    let t = RainbowTable::new(2, 2, 4, "Md5".to_string()).ok().unwrap();
    let chain = t.generate_chain("aa".to_string()).unwrap();
    let line = chain.to_line();
    assert_eq!(line, format!("aa\t{}", chain.last_pass()));
    let table = ChainTable::from_lines(&vec![line]).ok().unwrap();
    let crack = Crack::new(2, 2, 4, "Md5".to_string(), table).ok().unwrap();
    assert_eq!(crack.crack(&md5("aa")).unwrap(), "aa");
}

#[test]
fn crack_line_formats() {
    let d = md5("abc");
    let ok: Result<String, HashErrors> = Ok("pw".to_string());
    assert_eq!(crack_line(&d, &ok), "900150983cd24fb0d6963f7d28e17f72\tpw\n");
    let err: Result<String, HashErrors> = Err(HashErrors::NotInRainbowTable);
    assert_eq!(
        crack_line(&d, &err),
        "900150983cd24fb0d6963f7d28e17f72\tHash not Present in Rainbow Table\n"
    );
}

#[test]
fn table_file_round_trip() {
    let chains = vec![("ab", "cd"), ("ef", "gh"), ("ij", "cd"), ("x y", "z\tw")];
    let lines: Vec<String> = chains
        .iter()
        .map(|(f, l)| Chain::new(f.to_string(), l.to_string()).to_line())
        .collect();
    let table = ChainTable::from_lines(&lines).ok().unwrap();
    assert_eq!(table.len(), 3);
    assert_eq!(table.lookup("cd"), Some("ij"));
    assert_eq!(table.lookup("gh"), Some("ef"));
    assert_eq!(table.lookup("z\tw"), Some("x y"));
    assert_eq!(table.lookup("ab"), None);
}

#[test]
fn table_line_without_tab_is_rejected() {
    let lines = vec!["a\tb".to_string(), "nocolumn".to_string(), "also bad".to_string()];
    assert_eq!(ChainTable::from_lines(&lines).err(), Some(TableError::MissingTab { index: 1 }));
}

#[test]
fn table_line_splits_on_first_tab() {
    let c = hashassin::table::parse_chain_line("a\tb\tc").unwrap();
    assert_eq!((c.first_pass(), c.last_pass()), ("a", "b\tc"));
    assert!(hashassin::table::parse_chain_line("abc").is_none());
    let e = hashassin::table::parse_chain_line("\t").unwrap();
    assert_eq!((e.first_pass(), e.last_pass()), ("", ""));
}
