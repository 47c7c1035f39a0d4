use alien_task::alien::Alien;
use alien_task::direction::Direction;
use alien_task::naming::{decimal_string, name_for};
use alien_task::world::World;

fn loaded(text: &str) -> World {
    let mut w = World::new();
    assert_eq!(w.load_map(text.to_string()), Ok(()));
    w
}

fn names(w: &World) -> Vec<String> {
    w.cities.iter().map(|c| c.name.clone()).collect()
}

#[test]
fn alien_starts_active() {
    let a = Alien::new("A0", "Foo");
    assert_eq!(a.name, "A0");
    assert_eq!(a.current_city, "Foo");
    assert!(!a.is_dead && !a.is_trapped);
    assert!(a.is_active());
}

#[test]
fn alien_names_count_in_decimal() {
    assert_eq!(decimal_string(0), "0");
    assert_eq!(decimal_string(7), "7");
    assert_eq!(decimal_string(105), "105");
    assert_eq!(name_for(12), "A12");
}

#[test]
fn spawn_places_by_drawn_number() {
    let mut w = loaded("A north=B\nC");
    w.spawn_aliens_at(&vec![0, 4, 5]);
    assert_eq!(w.aliens.len(), 3);
    assert_eq!(w.aliens[0].name, "A0");
    assert_eq!(w.aliens[0].current_city, "A");
    assert_eq!(w.aliens[1].current_city, "B");
    assert_eq!(w.aliens[2].name, "A2");
    assert_eq!(w.aliens[2].current_city, "C");
}

#[test]
fn spawn_on_empty_world_places_nobody() {
    let mut w = World::new();
    w.spawn_aliens_at(&vec![1, 2]);
    assert!(w.aliens.is_empty());
    w.spawn_aliens(3);
    assert!(w.aliens.is_empty());
}

#[test]
fn random_spawn_places_on_live_cities() {
    let mut w = loaded("A north=B\nC");
    w.spawn_aliens(10);
    assert_eq!(w.aliens.len(), 10);
    for a in &w.aliens {
        assert!(w.find_city(&a.current_city).is_some());
    }
}

#[test]
fn two_aliens_meeting_destroy_their_city() {
    let mut w = loaded("A north=B");
    w.spawn_aliens_at(&vec![0, 2]);
    assert_eq!(w.aliens[0].current_city, "A");
    assert_eq!(w.aliens[1].current_city, "A");
    w.collide();
    assert!(w.aliens[0].is_dead && w.aliens[1].is_dead);
    assert_eq!(names(&w), vec!["B".to_string()]);
    assert_eq!(w.cities[0].south, None);
    assert!(w.is_over());
}

#[test]
fn collision_found_after_quiet_city() {
    let mut w = loaded("A north=B\nB north=C");
    w.spawn_aliens_at(&vec![0, 1, 1]);
    w.collide();
    assert!(!w.aliens[0].is_dead);
    assert!(w.aliens[1].is_dead && w.aliens[2].is_dead);
    assert_eq!(names(&w), vec!["A".to_string(), "C".to_string()]);
    assert_eq!(w.cities[0].north, None);
    assert_eq!(w.cities[1].south, None);
}

#[test]
fn lone_alien_does_not_collide() {
    let mut w = loaded("A north=B");
    w.spawn_aliens_at(&vec![0, 1]);
    w.collide();
    assert_eq!(names(&w).len(), 2);
    assert!(w.aliens.iter().all(|a| !a.is_dead));
}

#[test]
fn alien_in_city_without_roads_is_trapped() {
    let mut w = loaded("Solo");
    w.spawn_aliens_at(&vec![3]);
    assert!(!w.is_over());
    w.collide();
    w.move_aliens(&vec![9]);
    assert!(w.aliens[0].is_trapped);
    assert!(!w.aliens[0].is_dead);
    assert_eq!(w.aliens[0].current_city, "Solo");
    assert!(w.is_over());
    w.move_aliens(&vec![1]);
    assert_eq!(w.aliens[0].current_city, "Solo");
    w.day_and_night();
    assert_eq!(w.aliens[0].current_city, "Solo");
    assert!(w.aliens[0].is_trapped);
}

#[test]
fn moving_alien_takes_drawn_road() {
    let mut w = loaded("A north=B east=C");
    w.spawn_aliens_at(&vec![0, 0]);
    // Roads of A in order: north (B), east (C).
    w.move_aliens(&vec![0, 3]);
    assert_eq!(w.aliens[0].current_city, "B");
    assert_eq!(w.aliens[1].current_city, "C");
    w.move_aliens(&vec![5, 0]);
    assert_eq!(w.aliens[0].current_city, "A");
    assert_eq!(w.aliens[1].current_city, "A");
}

#[test]
fn random_movement_follows_roads() {
    let mut w = loaded("A north=B\nB east=C");
    w.spawn_aliens_at(&vec![1]);
    for _ in 0..20 {
        let from = w.aliens[0].current_city.clone();
        w.day_and_night();
        let to = w.aliens[0].current_city.clone();
        let i = w.find_city(&from).unwrap();
        let c = &w.cities[i];
        let ways: Vec<Option<String>> =
            [Direction::North, Direction::South, Direction::East, Direction::West].iter().map(|d| c.route(*d)).collect();
        assert!(ways.contains(&Some(to)));
    }
}

#[test]
fn isolated_city_is_never_entered() {
    let mut w = loaded("A north=B\nB north=C");
    w.spawn_aliens_at(&vec![1, 1, 0]);
    w.collide();
    // B is gone; A and C have no roads left.
    assert_eq!(names(&w), vec!["A".to_string(), "C".to_string()]);
    for _ in 0..5 {
        w.day_and_night();
        w.collide();
    }
    assert!(w.aliens[2].is_trapped);
    assert_eq!(w.aliens[2].current_city, "A");
    assert!(w.is_over());
}

#[test]
fn full_run_ends() {
    let mut w = loaded("A north=B east=C\nB east=D\nC north=D");
    w.spawn_aliens(6);
    let mut days = 0;
    while days < 1000 && !w.is_over() {
        w.collide();
        w.day_and_night();
        days += 1;
    }
    for a in &w.aliens {
        assert!(a.is_dead || a.is_trapped || w.find_city(&a.current_city).is_some());
    }
}
