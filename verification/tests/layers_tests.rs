use ld55_summoning::entity::Kind;
use ld55_summoning::layers::may_touch;

const KINDS: [Kind; 5] = [Kind::Player, Kind::Enemy, Kind::Minion, Kind::ManaGem, Kind::Label];

fn partners(kind: Kind) -> Vec<Kind> {
    KINDS.iter().copied().filter(|other| may_touch(kind, *other)).collect()
}

#[test]
fn each_kind_meets_its_partners() {
    assert_eq!(partners(Kind::Player), vec![Kind::Enemy, Kind::ManaGem]);
    assert_eq!(partners(Kind::Minion), vec![Kind::Enemy, Kind::Minion]);
    assert_eq!(partners(Kind::Enemy), vec![Kind::Player, Kind::Minion]);
    assert_eq!(partners(Kind::ManaGem), vec![Kind::Player]);
    assert_eq!(partners(Kind::Label), Vec::new());
}

#[test]
fn the_layers_pair_up() {
    for kind in KINDS {
        for other in KINDS {
            assert_eq!(may_touch(kind, other), may_touch(other, kind));
        }
    }
}
