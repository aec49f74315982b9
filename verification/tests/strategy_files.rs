use rust_poker::models::card::Rank;
use rust_poker::traversal::strategy::strategy_branch::StrategyHubKey;
use rust_poker::traversal::strategy::strategy_files::{
    decode_infoset_keys, encode_infoset_keys, parse_strategy_file_stem, strategy_file_stem,
    strategy_key_of_file_stem,
};

fn key(low_rank: Rank, high_rank: Rank, is_suited: bool, is_sb: bool) -> StrategyHubKey {
    StrategyHubKey { low_rank, high_rank, is_suited, is_sb }
}

#[test]
fn strategy_file_stem_names_the_key() {
    assert_eq!(strategy_file_stem(&key(Rank::Ten, Rank::Jack, true, true)), "T_J_suited_sb");
    assert_eq!(strategy_file_stem(&key(Rank::Two, Rank::Ace, false, false)), "2_A_offsuit_bb");
}

#[test]
fn strategy_file_stem_reads_back() {
    for low in 0..13u8 {
        for high in 0..13u8 {
            for is_suited in [false, true] {
                for is_sb in [false, true] {
                    let k = key(Rank::from_int(low), Rank::from_int(high), is_suited, is_sb);
                    let stem = strategy_file_stem(&k);
                    assert_eq!(parse_strategy_file_stem(&stem), Some(k));
                    assert_eq!(strategy_key_of_file_stem(&format!("{}.json", stem)), Some(k));
                }
            }
        }
    }
}

#[test]
fn strategy_file_stem_parsing_rules() {
    assert_eq!(parse_strategy_file_stem("T_J_suited"), None);
    assert_eq!(parse_strategy_file_stem("T_J_suited_sb_x"), None);
    assert_eq!(parse_strategy_file_stem("X_J_suited_sb"), None);
    assert_eq!(parse_strategy_file_stem("TT_J_suited_sb"), None);
    // Anything but `suited` is offsuit, anything but `sb` the big blind.
    assert_eq!(parse_strategy_file_stem("9_K_x_y"), Some(key(Rank::Nine, Rank::King, false, false)));
    assert_eq!(strategy_key_of_file_stem("2_3_suited_sb.json.json"), Some(key(Rank::Two, Rank::Three, true, true)));
    assert_eq!(strategy_key_of_file_stem("2_3_suited_sb.gz"), Some(key(Rank::Two, Rank::Three, true, false)));
}

#[test]
fn infoset_keys_encode_and_decode() {
    let keys = vec![vec![1u8, 2, 3], vec![], vec![255u8]];
    let texts = encode_infoset_keys(&keys);
    assert_eq!(texts, vec!["AQID".to_string(), "".to_string(), "/w==".to_string()]);
    assert_eq!(decode_infoset_keys(&texts), Some(keys));
    assert_eq!(decode_infoset_keys(&vec!["AQID".to_string(), "not base64!".to_string()]), None);
}
