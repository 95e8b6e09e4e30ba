use vstd::prelude::*;
use vstd::string::StrSliceExecFns;
use vstd::string::StringExecFns;

use crate::direction::{parse_direction, Direction};
use crate::dungeon::{linked, Dungeon, DungeonModel, ErrorModel, Errors, Neighbors};
use crate::text::{split_on, split_pieces, str_eq, trim, trimmed, views};

verus! {

/// Where the reader stands in the two-section text.
#[derive(Clone, Copy, Debug, PartialEq, Eq, Structural)]
pub enum ReadingState {
    Rooms,
    Links,
    EmptyLine,
}

/// The first line: `## Rooms`.
pub open spec fn rooms_header() -> Seq<char> {
    seq!['#', '#', ' ', 'R', 'o', 'o', 'm', 's']
}

/// The line that opens the second section: `## Links`.
pub open spec fn links_header() -> Seq<char> {
    seq!['#', '#', ' ', 'L', 'i', 'n', 'k', 's']
}

/// The separator between the fields of a link line: ` -> `.
pub open spec fn arrow() -> Seq<char> {
    seq![' ', '-', '>', ' ']
}

/// Whether a line starts with the item marker `- `.
pub open spec fn is_item(line: Seq<char>) -> bool {
    line.len() >= 2 && line[0] == '-' && line[1] == ' '
}

/// What follows the item marker.
pub open spec fn item_text(line: Seq<char>) -> Seq<char> {
    line.subrange(2, line.len() as int)
}

/// The trimmed fields of a link line.
pub open spec fn link_fields(line: Seq<char>) -> Seq<Seq<char>> {
    split_pieces(item_text(line), arrow()).map_values(|p: Seq<char>| trimmed(p))
}

/// The effect of line number `number` (counting from 1), read in `state` with the dungeon
/// built so far being `model`.
pub open spec fn parse_step(state: ReadingState, model: DungeonModel, line: Seq<char>, number: int) -> Result<
    (ReadingState, DungeonModel),
    ErrorModel,
> {
    match state {
        ReadingState::Rooms => {
            if number == 1 {
                if line == rooms_header() {
                    Ok((ReadingState::Rooms, model))
                } else {
                    Err(ErrorModel::LineParseError(number))
                }
            } else if line.len() == 0 {
                Ok((ReadingState::EmptyLine, model))
            } else if !is_item(line) {
                Err(ErrorModel::LineParseError(number))
            } else if model.contains_key(item_text(line)) {
                Err(ErrorModel::DuplicateRoom(item_text(line)))
            } else {
                Ok((ReadingState::Rooms, model.insert(item_text(line), Neighbors::empty())))
            }
        },
        ReadingState::EmptyLine => {
            if line == links_header() {
                Ok((ReadingState::Links, model))
            } else {
                Err(ErrorModel::LineParseError(number))
            }
        },
        ReadingState::Links => {
            if !is_item(line) || link_fields(line).len() != 3 {
                Err(ErrorModel::LineParseError(number))
            } else {
                let f = link_fields(line);
                match parse_direction(f[1]) {
                    None => Err(ErrorModel::DirectionParseError(f[1])),
                    Some(d) => {
                        if !model.contains_key(f[0]) {
                            Err(ErrorModel::UnknownRoom(f[0]))
                        } else if !model.contains_key(f[2]) {
                            Err(ErrorModel::UnknownRoom(f[2]))
                        } else {
                            Ok((ReadingState::Links, linked(model, f[0], d, f[2])))
                        }
                    },
                }
            }
        },
    }
}

/// The state and dungeon after the first `k` lines, or the first error among them.
pub open spec fn parse_prefix(lines: Seq<Seq<char>>, k: int) -> Result<(ReadingState, DungeonModel), ErrorModel>
    decreases k,
{
    if k <= 0 {
        Ok((ReadingState::Rooms, DungeonModel::empty()))
    } else {
        match parse_prefix(lines, k - 1) {
            Ok((state, model)) => parse_step(state, model, lines[k - 1], k),
            Err(e) => Err(e),
        }
    }
}

/// The dungeon that a whole text describes, or the first error in it; no lines at all is an
/// error at line 0.
pub open spec fn parse_lines(lines: Seq<Seq<char>>) -> Result<DungeonModel, ErrorModel> {
    if lines.len() == 0 {
        Err(ErrorModel::LineParseError(0))
    } else {
        match parse_prefix(lines, lines.len() as int) {
            Ok((_, model)) => Ok(model),
            Err(e) => Err(e),
        }
    }
}

/// An error in the first `k` lines is the outcome of the whole text.
proof fn lemma_error_persists(lines: Seq<Seq<char>>, k: int, n: int)
    requires
        1 <= k <= n,
        parse_prefix(lines, k) is Err,
    ensures
        parse_prefix(lines, n) == parse_prefix(lines, k),
    decreases n - k,
{
    if n > k {
        lemma_error_persists(lines, k, n - 1);
    }
}

/// Reading the same lines twice gives the same rooms with the same links: the outcome is a
/// function of the text alone.
pub proof fn lemma_parse_repeatable(lines: Seq<Seq<char>>, first: DungeonModel, second: DungeonModel)
    requires
        parse_lines(lines) == Ok::<DungeonModel, ErrorModel>(first),
        parse_lines(lines) == Ok::<DungeonModel, ErrorModel>(second),
    ensures
        first.dom() == second.dom(),
        forall|n: Seq<char>| #[trigger] first.contains_key(n) ==> first[n] == second[n],
{
}

/// Whether a line starts with `- `.
fn is_item_exec(line: &str) -> (r: bool)
    ensures
        r == is_item(line@),
{
    line.unicode_len() >= 2 && line.get_char(0) == '-' && line.get_char(1) == ' '
}

impl Dungeon {
    /// The source, direction and target fields of a link line.
    fn get_line_parts(line: &str, line_number: usize) -> (r: Result<Vec<String>, Errors>)
        ensures
            !is_item(line@) || link_fields(line@).len() != 3 ==> (r matches Err(e) && e@
                == ErrorModel::LineParseError(line_number as int)),
            is_item(line@) && link_fields(line@).len() == 3 ==> (r matches Ok(v) && views(v@)
                == link_fields(line@)),
    {
        if !is_item_exec(line) {
            return Err(Errors::LineParseError { line_number });
        }
        let rest = line.substring_char(2, line.unicode_len());
        proof {
            reveal_strlit(" -> ");
        }
        assert(" -> "@ == arrow());
        let pieces = split_on(rest, " -> ");
        if pieces.len() != 3 {
            return Err(Errors::LineParseError { line_number });
        }
        let mut fields: Vec<String> = Vec::new();
        let mut k: usize = 0;
        while k < 3
            invariant
                k <= 3,
                pieces@.len() == 3,
                views(pieces@) == split_pieces(item_text(line@), arrow()),
                fields@.len() == k,
                forall|j: int| 0 <= j < k ==> (#[trigger] fields@[j])@ == trimmed(pieces@[j]@),
            decreases 3 - k,
        {
            fields.push(String::from_str(trim(pieces[k].as_str())));
            k = k + 1;
        }
        proof {
            assert(views(fields@) =~= link_fields(line@));
        }
        Ok(fields)
    }

    /// Builds a dungeon from the lines of its text description, stopping at the first error.
    pub fn from_lines(lines: &[String]) -> (r: Result<Dungeon, Errors>)
        ensures
            parse_lines(views(lines@)) matches Ok(m) ==> (r matches Ok(d) && d.wf() && d@ == m),
            parse_lines(views(lines@)) matches Err(e) ==> (r matches Err(x) && x@ == e),
    {
        let ghost text = views(lines@);
        if lines.len() == 0 {
            return Err(Errors::LineParseError { line_number: 0 });
        }
        let mut dungeon = Dungeon::new();
        let mut state = ReadingState::Rooms;
        let mut i: usize = 0;
        proof {
            reveal_strlit("## Rooms");
            reveal_strlit("## Links");
        }
        assert("## Rooms"@ == rooms_header());
        assert("## Links"@ == links_header());
        while i < lines.len()
            invariant
                text == views(lines@),
                "## Rooms"@ == rooms_header(),
                "## Links"@ == links_header(),
                i <= lines@.len(),
                dungeon.wf(),
                parse_prefix(text, i as int) == Ok::<(ReadingState, DungeonModel), ErrorModel>(
                    (state, dungeon@),
                ),
            decreases lines@.len() - i,
        {
            let line = lines[i].as_str();
            let line_number = i + 1;
            assert(text[i as int] == line@);
            assert(parse_prefix(text, i + 1) == parse_step(state, dungeon@, line@, i + 1));
            match state {
                ReadingState::Rooms => {
                    if line_number == 1 {
                        if !str_eq(line, "## Rooms") {
                            proof {
                                lemma_error_persists(text, i + 1, text.len() as int);
                            }
                            return Err(Errors::LineParseError { line_number });
                        }
                    } else if line.unicode_len() == 0 {
                        state = ReadingState::EmptyLine;
                    } else if !is_item_exec(line) {
                        proof {
                            lemma_error_persists(text, i + 1, text.len() as int);
                        }
                        return Err(Errors::LineParseError { line_number });
                    } else {
                        let name = line.substring_char(2, line.unicode_len());
                        match dungeon.add_room(name) {
                            Ok(()) => {},
                            Err(e) => {
                                proof {
                                    lemma_error_persists(text, i + 1, text.len() as int);
                                }
                                return Err(e);
                            },
                        }
                    }
                },
                ReadingState::EmptyLine => {
                    if !str_eq(line, "## Links") {
                        proof {
                            lemma_error_persists(text, i + 1, text.len() as int);
                        }
                        return Err(Errors::LineParseError { line_number });
                    }
                    state = ReadingState::Links;
                },
                ReadingState::Links => {
                    let parts = match Dungeon::get_line_parts(line, line_number) {
                        Ok(parts) => parts,
                        Err(e) => {
                            proof {
                                lemma_error_persists(text, i + 1, text.len() as int);
                            }
                            return Err(e);
                        },
                    };
                    let d = match Direction::from_token(parts[1].as_str()) {
                        Ok(d) => d,
                        Err(e) => {
                            proof {
                                lemma_error_persists(text, i + 1, text.len() as int);
                            }
                            return Err(e);
                        },
                    };
                    match dungeon.set_link(parts[0].as_str(), d, parts[2].as_str()) {
                        Ok(()) => {},
                        Err(e) => {
                            proof {
                                lemma_error_persists(text, i + 1, text.len() as int);
                            }
                            return Err(e);
                        },
                    }
                },
            }
            i = i + 1;
        }
        Ok(dungeon)
    }
}

} // verus!
