use hanoi_towers::puzzle::Puzzle;

#[test]
fn new_stacks_all_disks_on_rod_zero() {
    let p = Puzzle::new(3);
    assert_eq!(p.rod0, vec![460, 430, 400]);
    assert!(p.rod1.is_empty());
    assert!(p.rod2.is_empty());
    assert_eq!(p.smallest_pos, 0);
    assert!(p.smallest_move);
    assert!(!p.solved);
    assert!(p.is_well_formed());
}

#[test]
fn single_disk_solves_in_one_step() {
    let mut p = Puzzle::new(1);
    p.do_move();
    assert!(p.solved);
    assert!(p.rod0.is_empty());
    assert_eq!(p.rod1, vec![460]);
    assert!(p.rod2.is_empty());
}

#[test]
fn three_disks_follow_the_canonical_sequence() {
    let mut p = Puzzle::new(3);

    p.do_move();
    assert_eq!(p.rod0, vec![460, 430]);
    assert_eq!(p.rod1, vec![400]);
    assert!(p.rod2.is_empty());
    assert!(!p.solved);

    p.do_move();
    assert_eq!(p.rod0, vec![460]);
    assert_eq!(p.rod1, vec![400]);
    assert_eq!(p.rod2, vec![430]);
    assert!(!p.solved);

    p.do_move();
    assert_eq!(p.rod0, vec![460]);
    assert!(p.rod1.is_empty());
    assert_eq!(p.rod2, vec![430, 400]);
    assert!(!p.solved);

    p.do_move();
    assert!(p.rod0.is_empty());
    assert_eq!(p.rod1, vec![460]);
    assert_eq!(p.rod2, vec![430, 400]);
    assert!(p.solved);
}

#[test]
fn turn_flag_toggles_on_every_step() {
    let mut p = Puzzle::new(4);
    let mut expected = true;
    for _ in 0..10 {
        assert_eq!(p.smallest_move, expected);
        p.do_move();
        expected = !expected;
    }
}

#[test]
fn move_disk_refuses_a_smaller_target() {
    let mut p = Puzzle::new(2);
    p.do_move();
    assert_eq!(p.rod0, vec![460]);
    assert_eq!(p.rod1, vec![430]);

    assert!(!p.move_disk(0, 1));
    assert_eq!(p.rod0, vec![460]);
    assert_eq!(p.rod1, vec![430]);

    assert!(p.move_disk(1, 0));
    assert_eq!(p.rod0, vec![460, 430]);
    assert!(p.rod1.is_empty());
}

#[test]
fn move_disk_from_an_empty_rod_fails() {
    let mut p = Puzzle::new(1);
    assert!(!p.move_disk(1, 2));
    assert!(p.move_disk(0, 2));
    assert_eq!(p.rod2, vec![460]);
}

#[test]
fn two_disks_solve_in_two_steps() {
    let mut p = Puzzle::new(2);
    p.do_move();
    assert!(!p.solved);
    p.do_move();
    assert!(p.solved);
    assert!(p.rod0.is_empty());
    assert_eq!(p.rod1, vec![430]);
    assert_eq!(p.rod2, vec![460]);
}

#[test]
fn nine_disks_solve_in_exactly_two_hundred_fifty_six_steps() {
    let mut p = Puzzle::new(9);
    let mut steps: u32 = 0;
    while !p.solved {
        p.do_move();
        steps += 1;
        assert!(steps <= 1000);
        assert!(p.is_well_formed());
    }
    assert_eq!(steps, 256);
    assert!(p.rod0.is_empty());
    assert_eq!(p.rod1, vec![460]);
    assert_eq!(p.rod2, vec![430, 400, 370, 340, 310, 280, 250, 220]);
}
