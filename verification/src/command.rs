//! Command lines of the media tools, as data: what to run, with which
//! arguments and which environment.
use crate::path;
use crate::path::FilePath;
use vstd::prelude::*;

verus! {

/// The encoder.
pub const FFMPEG: &'static str = "/usr/bin/ffmpeg";

/// The stream prober.
pub const FFPROBE: &'static str = "/usr/bin/ffprobe";

/// The sound processor.
pub const SOX: &'static str = "/usr/bin/sox";

/// A command line over plain values: the program's path, its arguments and
/// the environment variables set for it, all as bytes.
#[verifier::ext_equal]
pub struct Line {
    pub program: Seq<u8>,
    pub args: Seq<Seq<u8>>,
    pub envs: Seq<(Seq<u8>, Seq<u8>)>,
}

impl Line {
    /// `program` without arguments.
    pub open spec fn of(program: Seq<u8>) -> Line {
        Line { program, args: Seq::empty(), envs: Seq::empty() }
    }

    /// With one more argument.
    pub open spec fn arg(self, arg: Seq<u8>) -> Line {
        Line { args: self.args.push(arg), ..self }
    }

    /// With one more argument, given as text.
    pub open spec fn text(self, arg: Seq<char>) -> Line {
        self.arg(path::bytes_of(arg))
    }

    /// With more arguments, given as texts.
    pub open spec fn texts(self, list: Seq<&str>) -> Line {
        Line { args: self.args + list.map_values(|s: &str| path::bytes_of(s@)), ..self }
    }

    /// With more environment variables, given as texts.
    pub open spec fn text_envs(self, list: Seq<(Seq<char>, Seq<char>)>) -> Line {
        Line {
            envs: self.envs + list.map_values(
                |e: (Seq<char>, Seq<char>)| (path::bytes_of(e.0), path::bytes_of(e.1)),
            ),
            ..self
        }
    }

    /// With one more environment variable.
    pub open spec fn env(self, name: Seq<char>, value: Seq<u8>) -> Line {
        Line { envs: self.envs.push((path::bytes_of(name), value)), ..self }
    }
}

/// A command line that is ready to be started.
#[derive(Debug, PartialEq, Eq)]
pub struct CommandLine {
    pub program: FilePath,
    pub args: Vec<Vec<u8>>,
    pub envs: Vec<(Vec<u8>, Vec<u8>)>,
}

impl View for CommandLine {
    type V = Line;

    open spec fn view(&self) -> Line {
        Line {
            program: self.program@,
            args: self.args@.map_values(|a: Vec<u8>| a@),
            envs: self.envs@.map_values(|e: (Vec<u8>, Vec<u8>)| (e.0@, e.1@)),
        }
    }
}

impl CommandLine {
    /// `program` without arguments.
    pub fn new(program: FilePath) -> (r: CommandLine)
        ensures
            r@ == Line::of(program@),
    {
        let r = CommandLine { program, args: Vec::new(), envs: Vec::new() };
        assert(r@ =~= Line::of(program@));
        r
    }

    /// Adds one argument.
    pub fn arg(&mut self, arg: &[u8])
        ensures
            final(self)@ == old(self)@.arg(arg@),
    {
        let ghost before = self@;
        let mut copy: Vec<u8> = Vec::new();
        path::push_bytes(&mut copy, arg);
        assert(copy@ =~= arg@);
        self.args.push(copy);
        assert(self@ =~= before.arg(arg@));
    }

    /// Adds one argument, given as text.
    pub fn text(&mut self, arg: &str)
        ensures
            final(self)@ == old(self)@.text(arg@),
    {
        self.arg(arg.as_bytes());
    }

    /// Adds arguments, given as texts.
    pub fn texts(&mut self, list: &[&str])
        ensures
            final(self)@ == old(self)@.texts(list@),
    {
        let ghost before = self@;
        let mut k: usize = 0;
        assert(before =~= before.texts(list@.take(0)));
        while k < list.len()
            invariant
                k <= list.len(),
                self@ == before.texts(list@.take(k as int)),
            decreases list.len() - k,
        {
            self.text(list[k]);
            k += 1;
            assert(self@ =~= before.texts(list@.take(k as int)));
        }
        assert(list@.take(k as int) =~= list@);
    }

    /// Sets one environment variable.
    pub fn env(&mut self, name: &str, value: &[u8])
        ensures
            final(self)@ == old(self)@.env(name@, value@),
    {
        let ghost before = self@;
        let mut copy: Vec<u8> = Vec::new();
        path::push_bytes(&mut copy, value);
        assert(copy@ =~= value@);
        self.envs.push((name.as_bytes_vec(), copy));
        assert(self@ =~= before.env(name@, value@));
    }
}

/// The tools are looked for in `/usr/bin`, each under its own name.
pub proof fn law_tools()
    ensures
        FFMPEG@ == "/usr/bin/ffmpeg"@,
        FFPROBE@ == "/usr/bin/ffprobe"@,
        SOX@ == "/usr/bin/sox"@,
{
}

/// A new command line has nothing but its program. What is added comes last,
/// and leaves what was there before.
pub proof fn law_added_last(
    program: Seq<u8>,
    line: Line,
    arg: Seq<u8>,
    word: Seq<char>,
    list: Seq<&str>,
    value: Seq<u8>,
)
    ensures
        Line::of(program) == (Line { program, args: Seq::empty(), envs: Seq::empty() }),
        line.arg(arg).args == line.args + seq![arg],
        line.arg(arg).program == line.program,
        line.arg(arg).envs == line.envs,
        line.text(word).args == line.args + seq![path::bytes_of(word)],
        line.text(word).program == line.program,
        line.text(word).envs == line.envs,
        line.texts(list).program == line.program,
        line.texts(list).envs == line.envs,
        line.texts(list).args.len() == line.args.len() + list.len(),
        line.texts(list).args.take(line.args.len() as int) == line.args,
        forall|i: int|
            0 <= i < list.len() ==> line.texts(list).args[line.args.len() + i] == path::bytes_of(
                #[trigger] list[i]@,
            ),
        line.env(word, value).envs == line.envs + seq![(path::bytes_of(word), value)],
        line.env(word, value).program == line.program,
        line.env(word, value).args == line.args,
{
    assert(line.texts(list).args.take(line.args.len() as int) =~= line.args);
}

} // verus!
