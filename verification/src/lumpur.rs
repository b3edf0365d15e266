//! The settings with which a program is launched under a supervising
//! parent: where its working directory goes, which files are carried over
//! into it, and the commands that the launcher answers itself.

use vstd::prelude::*;

use crate::foreign::{local_now, string_push};
use crate::text::{decimal, push_decimal};

verus! {

/// Where the program's working directory is.
pub enum NewWorkingDirectory {
    /// The directory it was started in.
    Current,
    /// The given directory.
    Custom(String),
    /// A fresh directory under `output`, named after the date and time of the launch.
    Automatic,
}

impl Default for NewWorkingDirectory {
    fn default() -> (r: Self)
        ensures
            r is Automatic,
    {
        NewWorkingDirectory::Automatic
    }
}

/// A file carried over into the new working directory.
pub enum PathReference {
    /// The file is copied.
    Copy(String),
    /// A symbolic link to the file is made.
    Symlink(String),
}

/// The settings of a launch.
pub struct LumpurBuilder {
    pub new_working_directory: NewWorkingDirectory,
    pub path_reference: Vec<PathReference>,
    pub default_commands: bool,
}

/// The configuration file, which every launch carries over.
pub open spec fn config_file_name() -> Seq<char> {
    seq!['a', 'p', 'p', '-', 'c', 'o', 'n', 'f', 'i', 'g', '.', 't', 'o', 'm', 'l']
}

impl Default for LumpurBuilder {
    fn default() -> (r: Self)
        ensures
            r.new_working_directory is Automatic,
            r.path_reference@.len() == 1,
            r.path_reference@[0] matches PathReference::Copy(p) && p@ == config_file_name(),
            r.default_commands,
    {
        Self::new()
    }
}

impl LumpurBuilder {
    /// A fresh working directory, with the configuration file copied over
    /// and the default commands answered.
    pub fn new() -> (r: Self)
        ensures
            r.new_working_directory is Automatic,
            r.path_reference@.len() == 1,
            r.path_reference@[0] matches PathReference::Copy(p) && p@ == config_file_name(),
            r.default_commands,
    {
        let config = "app-config.toml".to_owned();
        proof {
            reveal_strlit("app-config.toml");
        }
        let mut path_reference = Vec::new();
        path_reference.push(PathReference::Copy(config));
        LumpurBuilder {
            new_working_directory: NewWorkingDirectory::Automatic,
            path_reference,
            default_commands: true,
        }
    }

    /// Sets where the working directory is.
    pub fn new_working_directory(self, new_working_directory: NewWorkingDirectory) -> (r: Self)
        ensures
            r.new_working_directory == new_working_directory,
            r.path_reference@ == self.path_reference@,
            r.default_commands == self.default_commands,
    {
        LumpurBuilder {
            new_working_directory,
            path_reference: self.path_reference,
            default_commands: self.default_commands,
        }
    }

    /// Adds a file to be linked into the new working directory.
    pub fn symlink_path(self, path: &str) -> (r: Self)
        ensures
            r.new_working_directory == self.new_working_directory,
            r.path_reference@.len() == self.path_reference@.len() + 1,
            r.path_reference@.drop_last() == self.path_reference@,
            r.path_reference@.last() matches PathReference::Symlink(p) && p@ == path@,
            r.default_commands == self.default_commands,
    {
        let mut path_reference = self.path_reference;
        path_reference.push(PathReference::Symlink(path.to_owned()));
        LumpurBuilder {
            new_working_directory: self.new_working_directory,
            path_reference,
            default_commands: self.default_commands,
        }
    }

    /// Adds a file to be copied into the new working directory.
    pub fn copy_file(self, path: &str) -> (r: Self)
        ensures
            r.new_working_directory == self.new_working_directory,
            r.path_reference@.len() == self.path_reference@.len() + 1,
            r.path_reference@.drop_last() == self.path_reference@,
            r.path_reference@.last() matches PathReference::Copy(p) && p@ == path@,
            r.default_commands == self.default_commands,
    {
        let mut path_reference = self.path_reference;
        path_reference.push(PathReference::Copy(path.to_owned()));
        LumpurBuilder {
            new_working_directory: self.new_working_directory,
            path_reference,
            default_commands: self.default_commands,
        }
    }

    /// Sets whether the launcher answers the default commands itself.
    pub fn set_default_commands(self, default_commands: bool) -> (r: Self)
        ensures
            r.new_working_directory == self.new_working_directory,
            r.path_reference@ == self.path_reference@,
            r.default_commands == default_commands,
    {
        LumpurBuilder {
            new_working_directory: self.new_working_directory,
            path_reference: self.path_reference,
            default_commands,
        }
    }
}

/// What the `clean` command removes.
#[derive(Debug, PartialEq, Eq)]
pub enum CleanTarget {
    /// `app.log` in the directory the program was started in.
    LogFile,
    /// `app.log` in the given directory.
    LogFileIn(String),
    /// The `output` directory, with every automatic working directory in it.
    OutputDirectory,
}

/// The name of the command that cleans up after earlier runs, in either
/// spelling.
pub open spec fn is_clean_command(arg: Seq<char>) -> bool {
    arg == seq!['c', 'l', 'e', 'a', 'n'] || arg == seq!['C', 'l', 'e', 'a', 'n']
}

/// The default command that the first argument `arg` asks for, given where
/// the working directory is: `None` where it asks for none, and the program
/// runs.
pub fn default_command(arg: &str, new_working_directory: &NewWorkingDirectory) -> (r: Option<
    CleanTarget,
>)
    ensures
        is_clean_command(arg@) <==> r is Some,
        r matches Some(t) ==> match new_working_directory {
            NewWorkingDirectory::Current => t is LogFile,
            NewWorkingDirectory::Custom(dir) => t matches CleanTarget::LogFileIn(d) && d@ == dir@,
            NewWorkingDirectory::Automatic => t is OutputDirectory,
        },
{
    let given = arg.to_owned();
    let lower = "clean".to_owned();
    let upper = "Clean".to_owned();
    proof {
        reveal_strlit("clean");
        reveal_strlit("Clean");
        assert(lower@ =~= seq!['c', 'l', 'e', 'a', 'n']);
        assert(upper@ =~= seq!['C', 'l', 'e', 'a', 'n']);
    }
    if given == lower || given == upper {
        Some(
            match new_working_directory {
                NewWorkingDirectory::Current => CleanTarget::LogFile,
                NewWorkingDirectory::Custom(dir) => CleanTarget::LogFileIn(dir.clone()),
                NewWorkingDirectory::Automatic => CleanTarget::OutputDirectory,
            },
        )
    } else {
        None
    }
}

/// The local date and time of a launch.
#[derive(Clone, Copy, Debug, PartialEq, Eq)]
pub struct LaunchTime {
    pub year: i32,
    pub month: u32,
    pub day: u32,
    pub hour: u32,
    pub minute: u32,
    pub second: u32,
}

impl LaunchTime {
    /// The components lie in the ranges of a calendar date and a time of day.
    pub open spec fn valid(self) -> bool {
        &&& 1 <= self.month <= 12
        &&& 1 <= self.day <= 31
        &&& self.hour <= 23
        &&& self.minute <= 59
        &&& self.second <= 59
    }
}

/// `n` in decimal, padded with a zero to two digits.
pub open spec fn two_digits(n: nat) -> Seq<char> {
    if n < 10 {
        seq!['0'] + decimal(n)
    } else {
        decimal(n)
    }
}

/// `n` in decimal, with a minus sign where it is negative.
pub open spec fn signed_decimal(n: int) -> Seq<char> {
    if n < 0 {
        seq!['-'] + decimal((-n) as nat)
    } else {
        decimal(n as nat)
    }
}

/// The name of the date's directory: year, month and day, joined by hyphens.
pub open spec fn date_name(t: LaunchTime) -> Seq<char> {
    signed_decimal(t.year as int) + seq!['-'] + two_digits(t.month as nat) + seq!['-']
        + two_digits(t.day as nat)
}

/// The name of the time's directory: hours, minutes and seconds, joined by
/// semicolons.
pub open spec fn time_name(t: LaunchTime) -> Seq<char> {
    two_digits(t.hour as nat) + seq![';'] + two_digits(t.minute as nat) + seq![';'] + two_digits(
        t.second as nat,
    )
}

/// The name of the directory that holds every automatic working directory.
pub open spec fn output_name() -> Seq<char> {
    seq!['o', 'u', 't', 'p', 'u', 't']
}

/// Appends `n` in decimal, padded with a zero to two digits.
fn push_two_digits(s: &mut String, n: u32)
    ensures
        final(s)@ == old(s)@ + two_digits(n as nat),
{
    if n < 10 {
        string_push(s, '0');
    }
    push_decimal(s, n as u64);
}

/// The path, one directory after the other, of the automatic working
/// directory of a launch at `t`.
pub fn automatic_directory(t: &LaunchTime) -> (r: Vec<String>)
    ensures
        r@.len() == 3,
        r@[0]@ == output_name(),
        r@[1]@ == date_name(*t),
        r@[2]@ == time_name(*t),
{
    let output = "output".to_owned();
    proof {
        reveal_strlit("output");
        assert(output@ =~= output_name());
    }
    let mut date = String::new();
    if t.year < 0 {
        string_push(&mut date, '-');
        push_decimal(&mut date, (0i64 - t.year as i64) as u64);
    } else {
        push_decimal(&mut date, t.year as u64);
    }
    string_push(&mut date, '-');
    push_two_digits(&mut date, t.month);
    string_push(&mut date, '-');
    push_two_digits(&mut date, t.day);
    let mut time = String::new();
    push_two_digits(&mut time, t.hour);
    string_push(&mut time, ';');
    push_two_digits(&mut time, t.minute);
    string_push(&mut time, ';');
    push_two_digits(&mut time, t.second);
    proof {
        assert(date@ =~= date_name(*t));
        assert(time@ =~= time_name(*t));
    }
    let mut r = Vec::new();
    r.push(output);
    r.push(date);
    r.push(time);
    r
}

impl NewWorkingDirectory {
    /// The working directory, one directory after the other: `None` for the
    /// current one, and the date and time of now for an automatic one.
    pub fn into_path_buf(self) -> (r: Option<Vec<String>>)
        ensures
            match self {
                NewWorkingDirectory::Current => r is None,
                NewWorkingDirectory::Custom(path) => r matches Some(v) && v@.len() == 1 && v@[0]
                    == path,
                NewWorkingDirectory::Automatic => r matches Some(v) && exists|t: LaunchTime|
                    #![auto]
                    t.valid() && v@.len() == 3 && v@[0]@ == output_name() && v@[1]@ == date_name(
                        t,
                    ) && v@[2]@ == time_name(t),
            },
    {
        match self {
            NewWorkingDirectory::Current => None,
            NewWorkingDirectory::Custom(path) => {
                let mut v = Vec::new();
                v.push(path);
                Some(v)
            },
            NewWorkingDirectory::Automatic => {
                let now = local_now();
                Some(automatic_directory(&now))
            },
        }
    }
}

/// The text of each component of a path.
pub open spec fn components(v: Seq<String>) -> Seq<Seq<char>> {
    v.map_values(|c: String| c@)
}

/// `path` lies strictly within the directory `dir`: `dir`'s components come
/// first, and more follow.
pub open spec fn is_within(dir: Seq<String>, path: Seq<String>) -> bool {
    &&& dir.len() < path.len()
    &&& components(path).take(dir.len() as int) == components(dir)
}

/// Where a file carried over into the new working directory goes, paths
/// given one component after the other: a file within the current directory
/// `current_dir` keeps its place below the new working directory `new_dir`;
/// `None` for a file that is not within the current directory.
pub fn carried_over_path(current_dir: &Vec<String>, path: &Vec<String>, new_dir: &Vec<String>) -> (r:
    Option<Vec<String>>)
    ensures
        r is Some <==> is_within(current_dir@, path@),
        r matches Some(p) ==> components(p@) == components(new_dir@) + components(path@).skip(
            current_dir@.len() as int,
        ),
{
    let n = current_dir.len();
    if n >= path.len() {
        return None;
    }
    let mut i: usize = 0;
    while i < n
        invariant
            n == current_dir@.len(),
            n < path@.len(),
            0 <= i <= n,
            forall|j: int| 0 <= j < i ==> #[trigger] current_dir@[j]@ == path@[j]@,
        decreases n - i,
    {
        if current_dir[i] != path[i] {
            proof {
                assert(components(path@).take(n as int)[i as int] != components(current_dir@)[i as int]);
            }
            return None;
        }
        i = i + 1;
    }
    proof {
        assert(components(path@).take(n as int) =~= components(current_dir@));
    }
    let mut out: Vec<String> = Vec::new();
    let mut k: usize = 0;
    while k < new_dir.len()
        invariant
            0 <= k <= new_dir@.len(),
            components(out@) == components(new_dir@).take(k as int),
        decreases new_dir@.len() - k,
    {
        let ghost before = out@;
        let c = new_dir[k].clone();
        out.push(c);
        proof {
            assert(components(out@) =~= components(before).push(c@));
            assert(components(new_dir@).take(k + 1) =~= components(new_dir@).take(k as int).push(
                new_dir@[k as int]@,
            ));
        }
        k = k + 1;
    }
    let mut m: usize = n;
    while m < path.len()
        invariant
            n <= m <= path@.len(),
            n == current_dir@.len(),
            components(new_dir@).take(new_dir@.len() as int) == components(new_dir@),
            components(out@) == components(new_dir@) + components(path@).subrange(n as int, m as int),
        decreases path@.len() - m,
    {
        let ghost before = out@;
        let c = path[m].clone();
        out.push(c);
        proof {
            assert(components(out@) =~= components(before).push(c@));
            assert(components(path@).subrange(n as int, m + 1) =~= components(path@).subrange(
                n as int,
                m as int,
            ).push(path@[m as int]@));
            assert(components(out@) =~= components(new_dir@) + components(path@).subrange(
                n as int,
                m + 1,
            ));
        }
        m = m + 1;
    }
    proof {
        assert(components(new_dir@).take(new_dir@.len() as int) =~= components(new_dir@));
        assert(components(path@).subrange(n as int, path@.len() as int) =~= components(path@).skip(
            n as int,
        ));
    }
    Some(out)
}

} // verus!
