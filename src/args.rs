use vstd::prelude::*;
use crate::encoding::is_ascii_digit;
use crate::text::{chars_of, path_with_extension, string_of, upper_of, uppercase, with_extension};

verus! {

/// The form of the output file.
#[derive(Debug, Clone, Copy, PartialEq, Eq, Structural)]
pub enum ExportType {
    /// A source-code byte array.
    Code,
    /// The raw bytes.
    Raw,
}

impl Default for ExportType {
    fn default() -> (r: ExportType)
        ensures
            r == ExportType::Code,
    {
        ExportType::Code
    }
}

/// The file extension of an export type.
pub open spec fn extension_of(t: ExportType) -> Seq<char> {
    match t {
        ExportType::Code => seq!['c'],
        ExportType::Raw => seq!['m', 'b', 'f'],
    }
}

/// The text up to its first `.`.
pub open spec fn first_segment(s: Seq<char>) -> Seq<char>
    decreases s.len(),
{
    if s.len() == 0 || s[0] == '.' {
        Seq::empty()
    } else {
        seq![s[0]] + first_segment(s.drop_first())
    }
}

/// The text without its ASCII digits.
pub open spec fn without_digits(s: Seq<char>) -> Seq<char>
    decreases s.len(),
{
    if s.len() == 0 {
        Seq::empty()
    } else {
        without_digits(s.drop_last()) + (if is_ascii_digit(s.last()) { Seq::empty() } else { seq![s.last()] })
    }
}

/// The settings of one compiler run.
pub struct CompilerArgs {
    pub input_path: String,
    pub output_path: Option<String>,
    pub export_type: ExportType,
    pub music_name: Option<String>,
    pub verbose: bool,
}

impl CompilerArgs {
    /// The output path given, or else the input path with the export type's extension.
    pub open spec fn output_path_spec(&self) -> Seq<char> {
        match self.output_path {
            Some(p) => p@,
            None => path_with_extension(self.input_path@, extension_of(self.export_type)),
        }
    }

    pub fn get_output_path(&self) -> (r: String)
        ensures
            r@ == self.output_path_spec(),
    {
        match &self.output_path {
            Some(p) => p.clone(),
            None => {
                let ext = match self.export_type {
                    ExportType::Code => "c",
                    ExportType::Raw => "mbf",
                };
                proof {
                    reveal_strlit("c");
                    reveal_strlit("mbf");
                }
                assert(ext@ =~= extension_of(self.export_type));
                with_extension(&self.input_path, ext)
            },
        }
    }

    /// The symbol name given, or else the output path up to its first `.`,
    /// upper-cased, without digits.
    pub fn get_music_name(&self) -> (r: String)
        ensures
            r@ == match self.music_name {
                Some(n) => n@,
                None => without_digits(upper_of(first_segment(self.output_path_spec()))),
            },
    {
        if let Some(name) = &self.music_name {
            return name.clone();
        }
        let path = chars_of(&self.get_output_path());
        let ghost s = path@;
        let mut segment: Vec<char> = Vec::new();
        let mut i: usize = 0;
        assert(s.skip(0) =~= s);
        assert(segment@ + first_segment(s.skip(0)) =~= first_segment(s));
        while i < path.len() && path[i] != '.'
            invariant
                i <= path@.len(),
                path@ == s,
                segment@ == s.take(i as int),
                first_segment(s) == segment@ + first_segment(s.skip(i as int)),
            decreases path@.len() - i,
        {
            proof {
                assert(s.skip(i as int).drop_first() =~= s.skip(i + 1));
                assert(segment@.push(path@[i as int]) + first_segment(s.skip(i + 1))
                    =~= segment@ + (seq![path@[i as int]] + first_segment(s.skip(i + 1))));
            }
            segment.push(path[i]);
            i = i + 1;
            assert(segment@ =~= s.take(i as int));
        }
        assert(first_segment(s.skip(i as int)) =~= Seq::<char>::empty());
        assert(first_segment(s) =~= segment@);
        let upper = chars_of(&uppercase(&string_of(&segment)));
        let ghost u = upper@;
        let mut name: Vec<char> = Vec::new();
        let mut j: usize = 0;
        while j < upper.len()
            invariant
                j <= upper@.len(),
                upper@ == u,
                name@ == without_digits(u.take(j as int)),
            decreases upper@.len() - j,
        {
            let c = upper[j];
            proof {
                assert(u.take(j + 1).drop_last() =~= u.take(j as int));
            }
            if c < '0' || c > '9' {
                name.push(c);
            }
            j = j + 1;
            assert(name@ =~= without_digits(u.take(j as int)));
        }
        assert(u.take(j as int) =~= u);
        string_of(&name)
    }
}

} // verus!
