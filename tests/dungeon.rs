use labyrinth::direction::Direction;
use labyrinth::dungeon::{Dungeon, Errors};

fn lines_of(text: &str) -> Vec<String> {
    text.lines().map(String::from).collect()
}

fn read(text: &str) -> Result<Dungeon, Errors> {
    Dungeon::from_lines(&lines_of(text))
}

fn path_names(dungeon: &Dungeon, from: &str, to: &str) -> Option<Vec<String>> {
    dungeon
        .find_path(from, to)
        .unwrap()
        .map(|p| p.iter().map(|r| r.name.clone()).collect())
}

const TEST_INPUT_1: &str = "
## Rooms
- room1
- room2
- room3

## Links
- room1 -> East -> room2
- room2 -> West -> room3
- room3 -> North -> room3
";

const TEST_INPUT_2: &str = "";
const TEST_INPUT_3: &str = "Line 1 err";
const TEST_INPUT_4: &str = "## Rooms\nLine 2 err";
const TEST_INPUT_5: &str = "## Rooms\n- duplicate\n- duplicate";
const TEST_INPUT_6: &str = "## Rooms\n- room1\n- room2\n\n## Links\n- room1 -> DIR -> room2";

#[test]
fn test_dungeon_building() {
    let mut dungeon = Dungeon::new();

    assert!(dungeon.add_room("room1").is_ok());
    assert_eq!(dungeon.add_room("room2").unwrap(), ());
    assert!(dungeon.add_room("room2").is_err());

    assert!(dungeon.set_link("room1", Direction::South, "room2").is_ok());
    assert!(dungeon.set_link("room2", Direction::South, "room3").is_err());

    assert_eq!(dungeon.get_room("room1").unwrap().name, "room1");

    assert_eq!(
        dungeon.get_next_room("room1", Direction::South).unwrap().unwrap().name,
        "room2"
    );
    assert!(dungeon.get_next_room("room2", Direction::South).unwrap().is_none());
    assert!(dungeon.get_next_room("room3", Direction::South).is_err());
}

#[test]
fn test_dungeon_parsing_1() {
    let dungeon = read(TEST_INPUT_1.trim()).unwrap();

    assert_eq!(dungeon.get_room("room1").unwrap().name, "room1");
    assert_eq!(dungeon.get_room("room2").unwrap().name, "room2");
    assert_eq!(dungeon.get_room("room3").unwrap().name, "room3");
    assert!(dungeon.get_room("error").is_err());

    assert_eq!(
        dungeon.get_next_room("room1", Direction::East).unwrap().unwrap().name,
        "room2"
    );
    assert_eq!(
        dungeon.get_next_room("room2", Direction::West).unwrap().unwrap().name,
        "room3"
    );
    assert_eq!(
        dungeon.get_next_room("room3", Direction::East).unwrap().unwrap().name,
        "room2"
    );
    assert_eq!(
        dungeon.get_next_room("room3", Direction::South).unwrap().unwrap().name,
        "room3"
    );
}

#[test]
fn test_dungeon_parsing_2() {
    assert!(matches!(read(TEST_INPUT_2).unwrap_err(), Errors::LineParseError { line_number: 0 }));
}

#[test]
fn test_dungeon_parsing_3() {
    assert!(matches!(read(TEST_INPUT_3).unwrap_err(), Errors::LineParseError { line_number: 1 }));
}

#[test]
fn test_dungeon_parsing_4() {
    assert!(matches!(read(TEST_INPUT_4).unwrap_err(), Errors::LineParseError { line_number: 2 }));
}

#[test]
fn test_dungeon_parsing_5() {
    let _room = String::from("duplicate");
    assert!(matches!(read(TEST_INPUT_5).unwrap_err(), Errors::DuplicateRoom(_room)));
}

#[test]
fn test_dungeon_parsing_6() {
    let _dir = String::from("DIR");
    assert!(matches!(read(TEST_INPUT_6).unwrap_err(), Errors::DirectionParseError(_dir)));
}

#[test]
fn test_dungeon_path() {
    let dungeon = read(TEST_INPUT_1.trim()).unwrap();

    assert_eq!(
        dungeon
            .find_path("room1", "room3")
            .unwrap()
            .unwrap()
            .iter()
            .map(|x| x.name.as_str())
            .collect::<Vec<&str>>(),
        vec!["room1", "room2", "room3"]
    );
    assert_eq!(
        dungeon
            .find_path("room2", "room3")
            .unwrap()
            .unwrap()
            .iter()
            .map(|x| x.name.as_str())
            .collect::<Vec<&str>>(),
        vec!["room2", "room3"]
    );
}

#[test]
fn test_dungeon_path_2() {
    let dungeon = read(TEST_INPUT_1.trim()).unwrap();
    assert!(matches!(dungeon.find_path("room2", "room1"), Ok(None)));
}

#[test]
fn test_link_1() {
    let mut dungeon = Dungeon::new();

    dungeon.add_room("Entrance").unwrap();
    dungeon.add_room("Hallway").unwrap();
    dungeon.set_link("Entrance", Direction::East, "Hallway").unwrap();

    assert_eq!(dungeon.get_room("Hallway").unwrap().name, "Hallway");
    assert_eq!(
        dungeon.get_next_room("Hallway", Direction::West).unwrap().unwrap().name,
        "Entrance"
    );
}

#[test]
fn test_list_2() {
    let mut dungeon = Dungeon::new();

    dungeon.add_room("Entrance").unwrap();
    dungeon.add_room("Hallway").unwrap();
    dungeon.add_room("Magic Lab").unwrap();

    dungeon.set_link("Entrance", Direction::East, "Hallway").unwrap();
    dungeon.set_link("Hallway", Direction::West, "Magic Lab").unwrap();

    assert_eq!(
        dungeon.get_next_room("Entrance", Direction::East).unwrap().unwrap().name,
        "Hallway"
    );
    assert_eq!(
        dungeon.get_next_room("Hallway", Direction::West).unwrap().unwrap().name,
        "Magic Lab"
    );
}

#[test]
fn test_room_exists() {
    let mut dungeon = Dungeon::new();

    dungeon.add_room("Entrance").unwrap();
    let result = dungeon.add_room("Entrance");
    let room = String::from("Entance");
    assert!(matches!(result.unwrap_err(), Errors::DuplicateRoom(room)));
}

#[test]
fn test_room_not_found() {
    let mut dungeon = Dungeon::new();

    dungeon.add_room("Entrance").unwrap();
    let result = dungeon.get_room("Entranc");
    let room = String::from("Entanc");
    assert!(matches!(result.unwrap_err(), Errors::UnknownRoom(room)));
}

#[test]
fn test_set_link_to_room_not_found() {
    let mut dungeon = Dungeon::new();

    dungeon.add_room("Entrance").unwrap();
    let result = dungeon.set_link("Entrance", Direction::North, "Hallway");
    let room = String::from("Hallway");
    assert!(matches!(result.unwrap_err(), Errors::UnknownRoom(room)));
}

#[test]
fn test_from_reader() {
    const INPUT_1: &str = "
# Rooms
- Entrance
- Hallway

## Links
- Entrance -> East -> Hallway
";

    const INPUT_2: &str = "
## Rooms

- Entrance
- Hallway

## Links
- Entrance -> East -> Hallway
";

    const INPUT_3: &str = "
## Rooms
- Entrance
- Hallway


## Links
- Entrance -> East -> Hallway
";

    const INPUT_4: &str = "
## Rooms
- Entrance
- Hallway

## Links
- Entrance -< East -> Hallway
";

    const INPUT_5: &str = "
## Rooms
- Entrance
- Entrance

## Links
- Entrance -> East -> Hallway
";

    let dungeon = read(INPUT_1.trim());
    assert!(matches!(dungeon.unwrap_err(), Errors::LineParseError { line_number: 1 }));

    let dungeon = read(INPUT_2.trim());
    assert!(matches!(dungeon.unwrap_err(), Errors::LineParseError { line_number: 3 }));

    let dungeon = read(INPUT_3.trim());
    assert!(matches!(dungeon.unwrap_err(), Errors::LineParseError { line_number: 5 }));

    let dungeon = read(INPUT_4.trim());
    assert!(matches!(dungeon.unwrap_err(), Errors::LineParseError { line_number: 6 }));

    let dungeon = read(INPUT_5.trim());
    let room = String::from("Entance");
    assert!(matches!(dungeon.unwrap_err(), Errors::DuplicateRoom(room)));
}

#[test]
fn test_get_path() {
    const TEST_INPUT_1: &str = "
## Rooms
- R1
- R2
- R3
- R4

## Links
- R1 -> East -> R2
- R1 -> West -> R3
- R3 -> East -> R4
";

    const TEST_INPUT_2: &str = "
## Rooms
- R1
- R2
- R3
- R4

## Links
- R1 -> East -> R2
- R1 -> West -> R3
- R3 -> West -> R4
";

    // `R3 -> East -> R4` takes over the east side of R3, which pointed back to R1, but R1
    // still leads west to R3, so R4 is reached over R3.
    let dungeon = read(TEST_INPUT_1.trim()).unwrap();

    let path = path_names(&dungeon, "R1", "R4");
    println!("{:?}", path);
    assert_eq!(path, Some(vec!["R1".to_string(), "R3".to_string(), "R4".to_string()]));

    let dungeon = read(TEST_INPUT_2.trim()).unwrap();

    let path = dungeon.find_path("R1", "R4");
    assert_eq!(path.unwrap().unwrap().len(), 3);
}

#[test]
fn opposite_is_an_involution() {
    for d in [Direction::North, Direction::South, Direction::East, Direction::West] {
        assert_eq!(d.opposite().opposite(), d);
        assert_ne!(d.opposite(), d);
    }
    assert_eq!(Direction::North.opposite(), Direction::South);
    assert_eq!(Direction::East.opposite(), Direction::West);
}

#[test]
fn direction_tokens_round_trip() {
    for d in [Direction::North, Direction::South, Direction::East, Direction::West] {
        assert_eq!(Direction::from_token(d.as_str()).unwrap(), d);
        assert_eq!(d.as_str().parse::<Direction>().unwrap(), d);
    }
    assert!(matches!(Direction::from_token("north"), Err(Errors::DirectionParseError(t)) if t == "north"));
    assert!(matches!(Direction::from_token(""), Err(Errors::DirectionParseError(t)) if t.is_empty()));
}

#[test]
fn link_is_symmetric() {
    let mut dungeon = Dungeon::new();
    dungeon.add_room("A").unwrap();
    dungeon.add_room("B").unwrap();
    dungeon.set_link("A", Direction::North, "B").unwrap();
    assert_eq!(dungeon.get_next_room("A", Direction::North).unwrap().unwrap().name, "B");
    assert_eq!(dungeon.get_next_room("B", Direction::South).unwrap().unwrap().name, "A");
    assert!(dungeon.get_next_room("A", Direction::South).unwrap().is_none());
    assert_eq!(dungeon.get_room("A").unwrap().neighbor(Direction::North).unwrap(), "B");
}

#[test]
fn self_link_sets_both_sides() {
    let mut dungeon = Dungeon::new();
    dungeon.add_room("A").unwrap();
    dungeon.set_link("A", Direction::West, "A").unwrap();
    assert_eq!(dungeon.get_next_room("A", Direction::West).unwrap().unwrap().name, "A");
    assert_eq!(dungeon.get_next_room("A", Direction::East).unwrap().unwrap().name, "A");
}

#[test]
fn duplicate_room_is_rejected_and_store_kept() {
    let mut dungeon = Dungeon::new();
    dungeon.add_room("X").unwrap();
    dungeon.add_room("Y").unwrap();
    dungeon.set_link("X", Direction::East, "Y").unwrap();
    assert!(matches!(dungeon.add_room("X"), Err(Errors::DuplicateRoom(n)) if n == "X"));
    let room = dungeon.get_room("X").unwrap();
    assert_eq!(room.name, "X");
    assert_eq!(room.neighbor(Direction::East).unwrap(), "Y");
    assert!(room.neighbor(Direction::West).is_none());
}

#[test]
fn link_to_unknown_room_changes_nothing() {
    let mut dungeon = Dungeon::new();
    dungeon.add_room("A").unwrap();
    assert!(matches!(
        dungeon.set_link("A", Direction::North, "ghost"),
        Err(Errors::UnknownRoom(n)) if n == "ghost"
    ));
    assert!(matches!(
        dungeon.set_link("ghost", Direction::North, "A"),
        Err(Errors::UnknownRoom(n)) if n == "ghost"
    ));
    for d in [Direction::North, Direction::South, Direction::East, Direction::West] {
        assert!(dungeon.get_next_room("A", d).unwrap().is_none());
    }
}

#[test]
fn path_to_itself_is_one_room() {
    let dungeon = read(TEST_INPUT_1.trim()).unwrap();
    assert_eq!(path_names(&dungeon, "room2", "room2"), Some(vec!["room2".to_string()]));
    assert!(matches!(dungeon.find_path("nowhere", "nowhere"), Err(Errors::UnknownRoom(n)) if n == "nowhere"));
}

#[test]
fn disconnected_rooms_have_no_path() {
    let mut dungeon = Dungeon::new();
    dungeon.add_room("A").unwrap();
    dungeon.add_room("B").unwrap();
    dungeon.add_room("C").unwrap();
    dungeon.set_link("A", Direction::North, "B").unwrap();
    assert!(matches!(dungeon.find_path("A", "C"), Ok(None)));
    assert!(matches!(dungeon.find_path("C", "A"), Ok(None)));
    assert!(matches!(dungeon.find_path("A", "missing"), Ok(None)));
    assert!(matches!(dungeon.find_path("missing", "A"), Err(Errors::UnknownRoom(n)) if n == "missing"));
}

#[test]
fn shortest_path_over_four_rooms() {
    let mut dungeon = Dungeon::new();
    for r in ["R1", "R2", "R3", "R4"] {
        dungeon.add_room(r).unwrap();
    }
    dungeon.set_link("R1", Direction::East, "R2").unwrap();
    dungeon.set_link("R1", Direction::West, "R3").unwrap();
    dungeon.set_link("R3", Direction::North, "R4").unwrap();
    assert_eq!(
        path_names(&dungeon, "R1", "R4"),
        Some(vec!["R1".to_string(), "R3".to_string(), "R4".to_string()])
    );
    assert_eq!(
        path_names(&dungeon, "R4", "R2"),
        Some(vec!["R4".to_string(), "R3".to_string(), "R1".to_string(), "R2".to_string()])
    );
}

#[test]
fn shortest_path_prefers_fewer_links() {
    let mut dungeon = Dungeon::new();
    for r in ["A", "B", "C", "D"] {
        dungeon.add_room(r).unwrap();
    }
    dungeon.set_link("A", Direction::North, "B").unwrap();
    dungeon.set_link("B", Direction::North, "C").unwrap();
    dungeon.set_link("C", Direction::North, "D").unwrap();
    dungeon.set_link("A", Direction::East, "D").unwrap();
    assert_eq!(path_names(&dungeon, "A", "D"), Some(vec!["A".to_string(), "D".to_string()]));
    assert_eq!(
        path_names(&dungeon, "B", "D"),
        Some(vec!["B".to_string(), "C".to_string(), "D".to_string()])
    );
}

#[test]
fn missing_blank_line_fails_at_links_header() {
    let text = "## Rooms\n- A\n- B\n## Links\n- A -> East -> B";
    assert!(matches!(read(text), Err(Errors::LineParseError { line_number: 4 })));
}

#[test]
fn empty_input_fails_at_line_zero() {
    assert!(matches!(Dungeon::from_lines(&[]), Err(Errors::LineParseError { line_number: 0 })));
}

#[test]
fn reading_twice_gives_the_same_dungeon() {
    let first = read(TEST_INPUT_1.trim()).unwrap();
    let second = read(TEST_INPUT_1.trim()).unwrap();
    for room in ["room1", "room2", "room3"] {
        for d in [Direction::North, Direction::South, Direction::East, Direction::West] {
            let a = first.get_next_room(room, d).unwrap().map(|r| r.name.clone());
            let b = second.get_next_room(room, d).unwrap().map(|r| r.name.clone());
            assert_eq!(a, b);
        }
    }
    assert!(second.get_room("room4").is_err());
}

#[test]
fn link_fields_are_trimmed() {
    let text = "## Rooms\n- A\n- B\n\n## Links\n- A   ->  East   ->  B  ";
    let dungeon = read(text).unwrap();
    assert_eq!(dungeon.get_next_room("A", Direction::East).unwrap().unwrap().name, "B");
    assert_eq!(dungeon.get_next_room("B", Direction::West).unwrap().unwrap().name, "A");
}

#[test]
fn link_line_errors() {
    let base = "## Rooms\n- A\n- B\n\n## Links\n";
    assert!(matches!(read(&format!("{}- A -> East", base)), Err(Errors::LineParseError { line_number: 6 })));
    assert!(matches!(
        read(&format!("{}- A -> East -> B -> A", base)),
        Err(Errors::LineParseError { line_number: 6 })
    ));
    assert!(matches!(read(&format!("{}A -> East -> B", base)), Err(Errors::LineParseError { line_number: 6 })));
    assert!(matches!(read(&format!("{}-", base)), Err(Errors::LineParseError { line_number: 6 })));
    assert!(matches!(
        read(&format!("{}- A -> East -> C", base)),
        Err(Errors::UnknownRoom(n)) if n == "C"
    ));
    assert!(matches!(
        read(&format!("{}- C -> East -> A", base)),
        Err(Errors::UnknownRoom(n)) if n == "C"
    ));
    assert!(matches!(
        read(&format!("{}- A -> Up -> B", base)),
        Err(Errors::DirectionParseError(t)) if t == "Up"
    ));
}

#[test]
fn room_section_errors() {
    assert!(matches!(read("## Rooms\n- A\n\n- B"), Err(Errors::LineParseError { line_number: 4 })));
    assert!(matches!(read("## Rooms\nx"), Err(Errors::LineParseError { line_number: 2 })));
    assert!(matches!(read("\n## Rooms"), Err(Errors::LineParseError { line_number: 1 })));
}

#[test]
fn rooms_only_and_header_only() {
    let dungeon = read("## Rooms").unwrap();
    assert!(dungeon.get_room("A").is_err());
    let dungeon = read("## Rooms\n- A\n- B c\n").unwrap();
    assert_eq!(dungeon.get_room("B c").unwrap().name, "B c");
    let dungeon = read("## Rooms\n- A\n\n## Links").unwrap();
    assert!(dungeon.get_next_room("A", Direction::North).unwrap().is_none());
}
