use raytracer::perlin::{perlin_generate_perm, permute, swap_entries, Perlin, POINT_COUNT};

fn is_shuffle_of_all(p: &[usize]) -> bool {
    let mut seen = vec![false; POINT_COUNT];
    for &v in p {
        if v >= POINT_COUNT || seen[v] {
            return false;
        }
        seen[v] = true;
    }
    p.len() == POINT_COUNT
}

#[test]
fn swap_entries_exchanges_two_places() {
    let mut p = vec![10, 11, 12, 13];
    swap_entries(&mut p, 0, 3);
    assert_eq!(p, vec![13, 11, 12, 10]);
    swap_entries(&mut p, 2, 2);
    assert_eq!(p, vec![13, 11, 12, 10]);
}

#[test]
fn generated_table_holds_every_index_once() {
    for _ in 0..20 {
        assert!(is_shuffle_of_all(&perlin_generate_perm()));
    }
}

#[test]
fn permute_rearranges_the_front_and_leaves_the_rest() {
    let start: Vec<usize> = (100..140).collect();
    let mut p = start.clone();
    permute(&mut p, 30);
    assert_eq!(p.len(), 40);
    assert_eq!(p[30..], start[30..]);
    let mut front = p[..30].to_vec();
    front.sort();
    assert_eq!(front, start[..30]);
    let mut q = start.clone();
    permute(&mut q, 0);
    assert_eq!(q, start);
}

#[test]
fn draws_are_not_one_end_of_their_range() {
    // a draw that were always the upper end of its range, or always the
    // lower end, would give the same table every time
    let always_upper = {
        let mut p: Vec<usize> = (0..POINT_COUNT).collect();
        for i in 0..POINT_COUNT {
            p.swap(POINT_COUNT - 1 - i, i);
        }
        p
    };
    let always_lower = {
        let mut p: Vec<usize> = (0..POINT_COUNT).collect();
        for i in 0..POINT_COUNT {
            p.swap(POINT_COUNT - 1 - i, 0);
        }
        p
    };
    let tables: Vec<Vec<usize>> = (0..8).map(|_| perlin_generate_perm()).collect();
    assert!(tables.iter().any(|t| *t != always_upper));
    assert!(tables.iter().any(|t| *t != always_lower));
    assert!(tables.iter().any(|t| *t != tables[0]));
}

#[test]
fn corner_depends_on_the_low_eight_bits_only() {
    let lattice = Perlin::new();
    for (i, j, k) in [(0, 0, 0), (1, 2, 3), (255, 255, 255), (-1, -2, -3), (i32::MAX, i32::MIN, 77)]
    {
        let c = lattice.corner(i, j, k);
        assert!(c < POINT_COUNT);
        assert_eq!(c, lattice.corner(i & 255, j & 255, k & 255));
        assert_eq!(
            c,
            lattice.corner(i.wrapping_add(256), j.wrapping_sub(512), k.wrapping_add(1024))
        );
    }
}

#[test]
fn corners_of_one_axis_are_all_different() {
    // along one axis the hash walks through a shuffled table, so no index
    // comes twice
    let lattice = Perlin::new();
    let mut along_x: Vec<usize> = (0..256).map(|i| lattice.corner(i, 5, 9)).collect();
    along_x.sort();
    assert_eq!(along_x, (0..POINT_COUNT).collect::<Vec<_>>());
}

#[test]
fn noise_lists_the_eight_corners_of_the_cell() {
    let lattice = Perlin::new();
    let c = lattice.noise((3, 4), (-7, -6), (255, 256));
    assert_eq!(
        c,
        vec![
            lattice.corner(3, -7, 255),
            lattice.corner(3, -7, 256),
            lattice.corner(3, -6, 255),
            lattice.corner(3, -6, 256),
            lattice.corner(4, -7, 255),
            lattice.corner(4, -7, 256),
            lattice.corner(4, -6, 255),
            lattice.corner(4, -6, 256),
        ]
    );
}

#[test]
fn permute_gives_what_some_draws_give() {
    // every outcome of shuffling three entries: the first draw is 0, the
    // second 0 or 1, the third 0, 1 or 2
    let start = vec![10, 11, 12];
    let mut reachable = Vec::new();
    for second in 0..2 {
        for third in 0..3 {
            let mut p = start.clone();
            swap_entries(&mut p, 2, 0);
            swap_entries(&mut p, 1, second);
            swap_entries(&mut p, 0, third);
            reachable.push(p);
        }
    }
    for _ in 0..50 {
        let mut p = start.clone();
        permute(&mut p, 3);
        assert!(reachable.contains(&p));
    }
    // with one entry the only draw exchanges it with itself
    let mut p = vec![7, 8];
    permute(&mut p, 1);
    assert_eq!(p, vec![7, 8]);
}
