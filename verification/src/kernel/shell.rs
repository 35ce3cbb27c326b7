//! The interactive shell's line editing and command dispatch.
use vstd::prelude::*;

verus! {

/// The byte the terminal sends for backspace.
pub const DELETE: char = '\x7f';

/// What the terminal shows after a keystroke.
#[derive(Debug, Clone, Copy, PartialEq, Eq, Structural)]
pub enum Echo {
    /// Print the character.
    Char(char),
    /// Move the cursor one column left and clear to the end of the screen.
    Erase,
    /// Print nothing.
    Nothing,
}

/// What the shell does with a line.
#[derive(Debug, Clone, Copy, PartialEq, Eq, Structural)]
pub enum Command {
    /// Print the shell's version.
    Help,
    /// Fork and run the line as a program.
    Spawn,
}

/// The line is complete: it ends with a newline or a carriage return.
pub open spec fn is_complete(line: Seq<char>) -> bool {
    line.len() > 0 && (line.last() == '\n' || line.last() == '\r')
}

/// The line without its carriage returns.
pub open spec fn without_returns(line: Seq<char>) -> Seq<char> {
    line.filter(|c: char| c != '\r')
}

/// The shell.
pub struct Shell {
    cwd: [u8; 56],
}

impl Shell {
    /// The working directory.
    pub closed spec fn cwd(&self) -> Seq<u8> {
        self.cwd@
    }

    /// A shell whose working directory is the empty path.
    pub fn new() -> (s: Shell)
        ensures
            s.cwd() == Seq::new(56, |i: int| 0u8),
    {
        let s = Shell { cwd: [0u8; 56] };
        proof {
            assert(s.cwd@ =~= Seq::new(56, |i: int| 0u8));
        }
        s
    }

    /// Takes one keystroke into the line: backspace removes the last character (erasing it on
    /// screen when there was one); any other character is echoed and appended.
    pub fn feed(line: &mut Vec<char>, c: char) -> (e: Echo)
        ensures
            c == DELETE && old(line)@.len() > 0 ==> final(line)@ == old(line)@.drop_last() && e == Echo::Erase,
            c == DELETE && old(line)@.len() == 0 ==> final(line)@ == old(line)@ && e == Echo::Nothing,
            c != DELETE ==> final(line)@ == old(line)@.push(c) && e == Echo::Char(c),
    {
        if c == DELETE {
            match line.pop() {
                Some(_) => Echo::Erase,
                None => Echo::Nothing,
            }
        } else {
            line.push(c);
            Echo::Char(c)
        }
    }

    /// The line is complete.
    pub fn line_complete(line: &Vec<char>) -> (r: bool)
        ensures
            r == is_complete(line@),
    {
        let n = line.len();
        n > 0 && (line[n - 1] == '\n' || line[n - 1] == '\r')
    }

    /// The command a complete line holds: the line without carriage returns.
    pub fn finish(line: &Vec<char>) -> (cmd: Vec<char>)
        ensures
            cmd@ == without_returns(line@),
    {
        let mut cmd: Vec<char> = Vec::new();
        let mut i: usize = 0;
        while i < line.len()
            invariant
                i <= line@.len(),
                cmd@ == without_returns(line@.take(i as int)),
            decreases line@.len() - i,
        {
            let c = line[i];
            proof {
                assert(line@.take(i as int + 1).drop_last() =~= line@.take(i as int));
                reveal(Seq::filter);
            }
            if c != '\r' {
                cmd.push(c);
            }
            i = i + 1;
        }
        proof {
            assert(line@.take(i as int) =~= line@);
        }
        cmd
    }

    /// `help` prints the version; anything else is run as a program.
    pub fn dispatch(command: &Vec<char>) -> (c: Command)
        ensures
            c == (if command@ == seq!['h', 'e', 'l', 'p'] {
                Command::Help
            } else {
                Command::Spawn
            }),
    {
        let is_help = command.len() == 4 && command[0] == 'h' && command[1] == 'e' && command[2] == 'l'
            && command[3] == 'p';
        proof {
            if is_help {
                assert(command@ =~= seq!['h', 'e', 'l', 'p']);
            }
            if command@ == seq!['h', 'e', 'l', 'p'] {
                assert(command@[0] == 'h');
                assert(command@[3] == 'p');
            }
        }
        if is_help {
            Command::Help
        } else {
            Command::Spawn
        }
    }
}

} // verus!
