use alien_task::city::City;
use alien_task::direction::Direction;
use alien_task::error::AppError;
use alien_task::world::World;

fn loaded(text: &str) -> World {
    let mut w = World::new();
    assert_eq!(w.load_map(text.to_string()), Ok(()));
    w
}

fn city<'a>(w: &'a World, name: &str) -> &'a City {
    let i = w.find_city(&name.to_string()).expect("city is live");
    &w.cities[i]
}

fn road(w: &World, name: &str, d: Direction) -> Option<String> {
    city(w, name).route(d)
}

fn names(w: &World) -> Vec<String> {
    w.cities.iter().map(|c| c.name.clone()).collect()
}

#[test]
fn opposite_twice_is_identity() {
    for d in [Direction::North, Direction::South, Direction::East, Direction::West] {
        assert_eq!(d.get_opposite().get_opposite(), d);
    }
    assert_eq!(Direction::North.get_opposite(), Direction::South);
    assert_eq!(Direction::East.get_opposite(), Direction::West);
}

#[test]
fn direction_parse_ignores_case() {
    assert_eq!(Direction::parse("NoRtH"), Ok(Direction::North));
    assert_eq!(Direction::parse("south"), Ok(Direction::South));
    assert_eq!(Direction::parse("EAST"), Ok(Direction::East));
    assert_eq!("West".parse::<Direction>(), Ok(Direction::West));
    assert_eq!(Direction::parse("up"), Err(AppError::WrongDirection));
    assert_eq!(Direction::parse(""), Err(AppError::WrongDirection));
    assert_eq!(Direction::parse("northh"), Err(AppError::WrongDirection));
}

#[test]
fn single_route_scenario() {
    let w = loaded("A north=B");
    assert_eq!(names(&w), vec!["A".to_string(), "B".to_string()]);
    assert_eq!(road(&w, "A", Direction::North), Some("B".to_string()));
    assert_eq!(road(&w, "A", Direction::South), None);
    assert_eq!(road(&w, "A", Direction::East), None);
    assert_eq!(road(&w, "A", Direction::West), None);
    assert_eq!(road(&w, "B", Direction::South), Some("A".to_string()));
    assert_eq!(road(&w, "B", Direction::North), None);
}

#[test]
fn loaded_route_has_its_way_back() {
    let w = loaded("X east=Y");
    assert_eq!(road(&w, "X", Direction::East), Some("Y".to_string()));
    assert_eq!(road(&w, "Y", Direction::West), Some("X".to_string()));
    assert!(w.find_city(&"X".to_string()).is_some());
    assert!(w.find_city(&"Y".to_string()).is_some());
}

#[test]
fn example_line_links_three_neighbours() {
    let w = loaded("Foo north=Bar west=Baz south=Qu-ux\n");
    assert_eq!(names(&w).len(), 4);
    assert_eq!(road(&w, "Bar", Direction::South), Some("Foo".to_string()));
    assert_eq!(road(&w, "Baz", Direction::East), Some("Foo".to_string()));
    assert_eq!(road(&w, "Qu-ux", Direction::North), Some("Foo".to_string()));
}

#[test]
fn repeated_city_line_merges_routes() {
    let w = loaded("A north=B\nA east=C\nB\n");
    assert_eq!(names(&w), vec!["A".to_string(), "B".to_string(), "C".to_string()]);
    assert_eq!(road(&w, "A", Direction::North), Some("B".to_string()));
    assert_eq!(road(&w, "A", Direction::East), Some("C".to_string()));
}

#[test]
fn relinking_same_pair_is_no_op() {
    let w = loaded("A north=B\nA north=B\nB south=A");
    assert_eq!(names(&w).len(), 2);
    assert_eq!(road(&w, "A", Direction::North), Some("B".to_string()));
}

#[test]
fn conflicting_route_is_rejected() {
    let mut w = World::new();
    assert_eq!(w.load_map("A north=B\nA north=C".to_string()), Err(AppError::RouteAlreadyExists));
}

#[test]
fn conflicting_way_back_is_rejected() {
    let mut w = World::new();
    assert_eq!(w.load_map("A north=B\nC north=B".to_string()), Err(AppError::RouteAlreadyExists));
}

#[test]
fn unknown_direction_is_rejected() {
    let mut w = World::new();
    assert_eq!(w.load_map("A up=B".to_string()), Err(AppError::WrongDirection));
}

#[test]
fn malformed_tokens_are_skipped() {
    let w = loaded("A north B  south=C x=y=z ==\r\n\n   \n");
    assert_eq!(names(&w), vec!["A".to_string(), "C".to_string()]);
    assert_eq!(road(&w, "A", Direction::South), Some("C".to_string()));
    assert_eq!(road(&w, "A", Direction::North), None);
    assert_eq!(road(&w, "A", Direction::East), None);
}

#[test]
fn empty_destination_links_unnamed_city() {
    let w = loaded("A east=");
    assert_eq!(names(&w), vec!["A".to_string(), "".to_string()]);
    assert_eq!(road(&w, "A", Direction::East), Some("".to_string()));
    assert_eq!(road(&w, "", Direction::West), Some("A".to_string()));
}

#[test]
fn empty_direction_is_rejected() {
    let mut w = World::new();
    assert_eq!(w.load_map("A =B".to_string()), Err(AppError::WrongDirection));
}

#[test]
fn lone_city_without_routes() {
    let w = loaded("Solo");
    assert_eq!(names(&w), vec!["Solo".to_string()]);
    for d in [Direction::North, Direction::South, Direction::East, Direction::West] {
        assert_eq!(road(&w, "Solo", d), None);
    }
}

#[test]
fn destroy_prunes_routes() {
    let mut w = loaded("A north=B east=C\nB east=D");
    w.destroy_city(&"B".to_string());
    assert!(w.find_city(&"B".to_string()).is_none());
    assert_eq!(names(&w), vec!["A".to_string(), "C".to_string(), "D".to_string()]);
    assert_eq!(road(&w, "A", Direction::North), None);
    assert_eq!(road(&w, "A", Direction::East), Some("C".to_string()));
    assert_eq!(road(&w, "D", Direction::West), None);
    for c in &w.cities {
        for d in [Direction::North, Direction::South, Direction::East, Direction::West] {
            assert_ne!(c.route(d), Some("B".to_string()));
        }
    }
}

#[test]
fn map_file_text_lists_routes_in_direction_order() {
    let w = loaded("A west=C north=B");
    assert_eq!(w.map_file_text(), "A north=B west=C\nC east=A\nB south=A\n");
}

#[test]
fn report_lists_each_city_and_its_roads() {
    let w = loaded("A west=C north=B\nLone");
    assert_eq!(
        w.render_map(),
        "A:\n  North -> B\n  West -> C\nC:\n  East -> A\nB:\n  South -> A\nLone:\n"
    );
    assert_eq!(loaded("A").render_map(), "A:\n");
    assert_eq!(World::new().render_map(), "");
}

#[test]
fn render_then_reload_gives_same_graph() {
    let w = loaded("Foo north=Bar west=Baz south=Qu-ux\nBar west=Bee\nLone\n");
    let text = w.map_file_text();
    let again = loaded(&text);
    let mut a = names(&w);
    let mut b = names(&again);
    a.sort();
    b.sort();
    assert_eq!(a, b);
    assert_eq!(a.len(), 6);
    for n in names(&w) {
        for d in [Direction::North, Direction::South, Direction::East, Direction::West] {
            assert_eq!(road(&w, &n, d), road(&again, &n, d));
        }
    }
}

#[test]
fn city_set_destinations_and_destroy() {
    let mut c = City::new("A".to_string());
    assert_eq!(c.set_destinations(Direction::North, &"B".to_string()), Ok(()));
    assert_eq!(c.north, Some("B".to_string()));
    assert_eq!(c.set_destinations(Direction::North, &"B".to_string()), Ok(()));
    assert_eq!(c.set_destinations(Direction::North, &"C".to_string()), Err(AppError::RouteAlreadyExists));
    assert_eq!(c.north, Some("B".to_string()));
    assert_eq!(c.set_destinations(Direction::West, &"D".to_string()), Ok(()));
    c.destroy_self();
    assert!(c.is_destroyed);
    assert_eq!(c.north, None);
    assert_eq!(c.west, None);
    assert_eq!(c.name, "A");
}

#[test]
fn error_messages() {
    assert_eq!(AppError::RouteAlreadyExists.message(), "route already exists");
    assert_eq!(AppError::WrongDirection.message(), "wrong direction");
}
