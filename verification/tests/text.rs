use frame_relay::text::{rank, same_text, Rank};

#[test]
fn rank_follows_the_order_of_str() {
    let texts = ["", "a", "A", "aa", "ab", "b", "tick", "tic", "ticks", "é", "e", "\u{7f}", "\u{80}", "\u{10348}", "\u{ffff}", "10", "9"];
    for a in texts {
        for b in texts {
            let expected = match a.cmp(b) {
                std::cmp::Ordering::Less => Rank::Before,
                std::cmp::Ordering::Equal => Rank::Same,
                std::cmp::Ordering::Greater => Rank::After,
            };
            assert_eq!(rank(a, b), expected, "{a:?} {b:?}");
            assert_eq!(same_text(a, b), a == b, "{a:?} {b:?}");
        }
    }
}

#[test]
fn a_prefix_comes_first() {
    assert_eq!(rank("tic", "tick"), Rank::Before);
    assert_eq!(rank("tick", "tic"), Rank::After);
    assert_eq!(rank("tick", "tick"), Rank::Same);
    assert_eq!(rank("", ""), Rank::Same);
    assert_eq!(rank("", "a"), Rank::Before);
}
