//! What each line of a scope belongs to, for a line-based user interface.

use vstd::prelude::*;

verus! {

/// What a line belongs to.
#[derive(Clone, Copy, Debug, PartialEq, Eq, Structural)]
pub enum LineType {
    /// Only used within subenvironments: the line relates to the block, but is outside the opening
    /// brace for this block.
    Opening,
    /// The line corresponds to a node inside the environment, by its index. If the node
    /// represents a block, this line has a type in the subenvironment within the block too.
    Node(usize),
    /// Either only whitespace is here, or a comment.
    Empty,
    /// Lines with other sorts of statements besides prop statements.
    Other,
    /// Only used within subenvironments: the line has the closing brace for this block.
    Closing,
}

/// The types of the lines from a first one on.
pub struct LineMap {
    first_line: u32,
    types: Vec<LineType>,
}

/// The model of a line map.
pub struct LineMapV {
    pub first_line: u32,
    pub types: Seq<LineType>,
}

impl View for LineMap {
    type V = LineMapV;

    closed spec fn view(&self) -> LineMapV {
        LineMapV { first_line: self.first_line, types: self.types@ }
    }
}

/// A list made at least `n` long with more of the same.
pub open spec fn padded(types: Seq<LineType>, t: LineType, n: int) -> Seq<LineType> {
    if n <= types.len() {
        types
    } else {
        Seq::new(n as nat, |i: int| if i < types.len() { types[i] } else { t })
    }
}

impl LineMapV {
    /// The line after the last one that has a type.
    pub open spec fn next_line(self) -> int {
        self.first_line + self.types.len()
    }

    /// The map with types for the lines from `first` to `last`, and empty ones before. Lines that
    /// have a type already keep it.
    pub open spec fn with_lines(self, t: LineType, first: u32, last: u32) -> LineMapV {
        LineMapV {
            first_line: self.first_line,
            types: padded(
                padded(self.types, LineType::Empty, first - self.first_line),
                t,
                last + 1 - self.first_line,
            ),
        }
    }

    /// The type of a line.
    pub open spec fn at(self, line: int) -> Option<LineType> {
        if self.first_line <= line < self.next_line() {
            Some(self.types[line - self.first_line])
        } else {
            None
        }
    }
}

impl LineMap {
    #[verifier::type_invariant]
    spec fn inv(self) -> bool {
        self.first_line + self.types@.len() <= u32::MAX + 1
    }

    /// A map without types.
    pub fn new(first_line: u32) -> (r: LineMap)
        ensures
            r@ == (LineMapV { first_line, types: Seq::empty() }),
    {
        LineMap { first_line, types: Vec::new() }
    }

    /// The line after the last one that has a type.
    pub fn next_line(&self) -> (r: u64)
        ensures
            r == self@.next_line(),
            r <= u32::MAX + 1,
    {
        proof {
            use_type_invariant(self);
        }
        self.types.len() as u64 + self.first_line as u64
    }

    /// Adds line types for the given range, inserting empties as needed. If a line already has a
    /// type, it is kept.
    pub fn add_line_types(&mut self, line_type: LineType, first: u32, last: u32)
        ensures
            final(self)@ == old(self)@.with_lines(line_type, first, last),
    {
        proof {
            use_type_invariant(&*self);
        }
        let first_line = self.first_line;
        let ghost before = self.types@;
        let mut types: Vec<LineType> = Vec::new();
        std::mem::swap(&mut types, &mut self.types);
        let ghost mid = padded(before, LineType::Empty, first - first_line);
        while (types.len() as u64 + first_line as u64) < first as u64
            invariant
                first_line + types@.len() <= u32::MAX + 1,
                mid == padded(before, LineType::Empty, first - first_line),
                padded(types@, LineType::Empty, first - first_line) == mid,
            decreases u32::MAX + 1 - types@.len(),
        {
            let ghost t0 = types@;
            types.push(LineType::Empty);
            assert(padded(types@, LineType::Empty, first - first_line) =~= padded(
                t0,
                LineType::Empty,
                first - first_line,
            ));
        }
        assert(types@ == mid);
        while types.len() as u64 + first_line as u64 <= last as u64
            invariant
                first_line + types@.len() <= u32::MAX + 1,
                padded(types@, line_type, last + 1 - first_line) == padded(
                    mid,
                    line_type,
                    last + 1 - first_line,
                ),
            decreases u32::MAX + 1 - types@.len(),
        {
            let ghost t0 = types@;
            types.push(line_type);
            assert(padded(types@, line_type, last + 1 - first_line) =~= padded(
                t0,
                line_type,
                last + 1 - first_line,
            ));
        }
        self.types = types;
    }

    /// The type of a line.
    pub fn get_line_type(&self, line: u64) -> (r: Option<LineType>)
        ensures
            r == self@.at(line as int),
    {
        if line < self.first_line as u64 {
            return None;
        }
        let index = line - self.first_line as u64;
        if index < self.types.len() as u64 {
            Some(self.types[index as usize])
        } else {
            None
        }
    }

    /// Whether a line has a type.
    pub fn covers_line(&self, line: u64) -> (r: bool)
        ensures
            r == (self@.at(line as int) is Some),
    {
        line >= self.first_line as u64 && line < self.next_line()
    }

    /// The number of the first line.
    pub fn first_line(&self) -> (r: u32)
        ensures
            r == self@.first_line,
    {
        self.first_line
    }
}

/// A line that has a type keeps it, whatever is added.
pub proof fn law_lines_are_kept(m: LineMapV, t: LineType, first: u32, last: u32, line: int)
    requires
        m.at(line) is Some,
    ensures
        m.with_lines(t, first, last).at(line) == m.at(line),
{
}

/// After lines have been added, each line up to the last of them has a type.
pub proof fn law_added_lines_are_covered(m: LineMapV, t: LineType, first: u32, last: u32, line: int)
    requires
        m.first_line <= line <= last,
    ensures
        m.with_lines(t, first, last).at(line) is Some,
        first <= line && m.at(line) is None ==> m.with_lines(t, first, last).at(line) == Some(t),
        line < first && m.at(line) is None ==> m.with_lines(t, first, last).at(line) == Some(
            LineType::Empty,
        ),
{
}

} // verus!
