//! The configuration record and the option resolver.
//!
//! `Options` is built once per run by merging caller-supplied flags over
//! the documented defaults; when numeric sorting is requested the input
//! filenames are reordered by `sort_by_key`, a stable sort on numeric keys.

use vstd::prelude::*;
use crate::ordering::{views, sort_by_key, insert_by_key, insert_sorted};

verus! {

/// The default output-file name stem.
pub open spec fn default_basename() -> Seq<char> {
    "cn"@
}

/// The default output file name.
pub open spec fn default_output_name() -> Seq<char> {
    "output.pdf"@
}

/// The resolved configuration: every field holds either the caller's
/// explicit value or its documented default.
#[derive(Debug)]
pub struct Options {
    pub verbose: bool,
    pub sort_numerically: bool,
    pub basename: Option<String>,
    pub output_name: Option<String>,
    pub input_filenames: Vec<String>,
}

impl Options {
    /// Every field holds its documented default.
    pub open spec fn is_default(self) -> bool {
        &&& self.verbose == false
        &&& self.sort_numerically == false
        &&& self.basename matches Some(b) && b@ == default_basename()
        &&& self.output_name matches Some(o) && o@ == default_output_name()
        &&& self.input_filenames@ == Seq::<String>::empty()
    }
}

impl Default for Options {
    /// The default configuration: not verbose, no numeric sorting, basename
    /// `"cn"`, output name `"output.pdf"`, no input filenames.
    fn default() -> (r: Options)
        ensures
            r.is_default(),
    {
        Options {
            verbose: false,
            sort_numerically: false,
            basename: Some(String::from_str("cn")),
            output_name: Some(String::from_str("output.pdf")),
            input_filenames: Vec::new(),
        }
    }
}

impl Options {
    /// Resolves caller-supplied flags over the defaults. `verbose` and
    /// `sort_numerically` are presence flags; a supplied `basename`
    /// overrides the default stem; a supplied `input` list is taken
    /// verbatim, then sorted by numeric key when `sort_numerically` is
    /// set. The output name is never populated from flags.
    pub fn load(
        verbose: bool,
        sort_numerically: bool,
        basename: Option<String>,
        input: Option<Vec<String>>,
    ) -> (r: Options)
        ensures
            r.verbose == verbose,
            r.sort_numerically == sort_numerically,
            basename matches Some(b) ==> r.basename == Some(b),
            basename is None ==> (r.basename matches Some(b) && b@ == default_basename()),
            r.output_name matches Some(o) && o@ == default_output_name(),
            input is Some && sort_numerically ==> views(r.input_filenames@) == sort_by_key(
                views((input->0)@),
            ),
            input is Some && !sort_numerically ==> r.input_filenames@ == (input->0)@,
            input is None ==> r.input_filenames@ == Seq::<String>::empty(),
    {
        let mut options = Options::default();

        if verbose {
            options.verbose = true;
        }

        if sort_numerically {
            options.sort_numerically = true;
        }

        if let Some(b) = basename {
            options.basename = Some(b);
        }

        if let Some(in_v) = input {
            options.input_filenames = in_v;

            if options.sort_numerically {
                options.sort_filenames();
            }
        }

        options
    }

    /// Reorders `input_filenames` by numeric key with a stable sort; no
    /// other field changes.
    pub fn sort_filenames(&mut self)
        ensures
            views(final(self).input_filenames@) == sort_by_key(
                views(old(self).input_filenames@),
            ),
            final(self).verbose == old(self).verbose,
            final(self).sort_numerically == old(self).sort_numerically,
            final(self).basename == old(self).basename,
            final(self).output_name == old(self).output_name,
    {
        let ghost orig = old(self).input_filenames@;
        let mut sorted: Vec<String> = Vec::new();
        proof {
            assert(orig.skip(orig.len() as int) =~= Seq::<String>::empty());
            assert(views(Seq::<String>::empty()) =~= Seq::<Seq<char>>::empty());
            assert(orig.take(orig.len() as int) =~= orig);
        }
        while self.input_filenames.len() > 0
            invariant
                self.input_filenames@ == orig.take(self.input_filenames@.len() as int),
                views(sorted@) == sort_by_key(views(orig.skip(self.input_filenames@.len() as int))),
                self.input_filenames@.len() <= orig.len(),
                self.verbose == old(self).verbose,
                self.sort_numerically == old(self).sort_numerically,
                self.basename == old(self).basename,
                self.output_name == old(self).output_name,
            decreases self.input_filenames@.len(),
        {
            let ghost m = self.input_filenames@.len() as int;
            let x = self.input_filenames.pop().unwrap();
            proof {
                assert(x == orig[m - 1]);
                assert(self.input_filenames@ =~= orig.take(m - 1));
                let tail = orig.skip(m - 1);
                assert(tail.len() > 0);
                assert(views(tail)[0] == orig[m - 1]@);
                assert(views(tail).drop_first() =~= views(orig.skip(m)));
                assert(sort_by_key(views(tail)) == insert_by_key(
                    orig[m - 1]@,
                    sort_by_key(views(orig.skip(m))),
                ));
            }
            insert_sorted(&mut sorted, x);
        }
        proof {
            assert(orig.skip(0) =~= orig);
        }
        self.input_filenames = sorted;
    }
}

} // verus!
