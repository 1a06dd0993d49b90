//! Descriptions of the tool's own command-line options, and the layout
//! arithmetic used to align their help lines.

use vstd::prelude::*;
use vstd::string::StringSliceAdditionalSpecFns;

verus! {

/// One option of the tool: its long and short spellings, its argument
/// placeholder, and its help text.
pub struct OptionDefinition {
    pub long: &'static str,
    pub short: &'static str,
    pub args: &'static str,
    pub help: &'static str,
}

/// The byte length of the option's header: the long form, a `", "` plus the
/// short form when one exists, and a space plus the placeholder when one
/// exists.
pub open spec fn spec_header_len(od: OptionDefinition) -> int {
    od.long.spec_bytes().len() as int + (if od.short@.len() > 0 {
        2 + od.short.spec_bytes().len() as int
    } else {
        0
    }) + (if od.args@.len() > 0 {
        1 + od.args.spec_bytes().len() as int
    } else {
        0
    })
}

/// The option's header text: short form first when present, then the long
/// form, then the argument placeholder.
pub open spec fn spec_header_text(od: OptionDefinition) -> Seq<char> {
    (if od.short@.len() > 0 {
        od.short@ + seq![',', ' ']
    } else {
        Seq::<char>::empty()
    }) + od.long@ + (if od.args@.len() > 0 {
        seq![' '] + od.args@
    } else {
        Seq::<char>::empty()
    })
}

impl OptionDefinition {
    /// An option description from its four parts.
    pub fn new(long: &'static str, short: &'static str, args: &'static str, help: &'static str)
        -> (r: Self)
        ensures
            r.long == long,
            r.short == short,
            r.args == args,
            r.help == help,
    {
        OptionDefinition { long, short, args, help }
    }

    /// The byte length of the header, used to align help columns.
    pub fn header_len(&self) -> (r: usize)
        requires
            spec_header_len(*self) <= usize::MAX,
        ensures
            r == spec_header_len(*self),
    {
        let mut len: usize = self.long.len();
        if !self.short.is_empty() {
            len = len + 2;  // ", "
            len = len + self.short.len();
        }
        if !self.args.is_empty() {
            len = len + 1;  // " "
            len = len + self.args.len();
        }
        len
    }

    /// The header, the given number of alignment spaces, and the help text,
    /// as one line.
    pub fn to_string_with_spaces(&self, spaces: usize) -> (r: String)
        ensures
            r@ == spec_header_text(*self) + Seq::new(spaces as nat, |i: int| ' ') + self.help@,
    {
        let mut s = String::new();
        if !self.short.is_empty() {
            s.append(self.short);
            s.append(", ");
        }
        s.append(self.long);
        if !self.args.is_empty() {
            s.append(" ");
            s.append(self.args);
        }
        proof {
            reveal_strlit(", ");
            reveal_strlit(" ");
            assert((", ")@ =~= seq![',', ' ']);
            assert((" ")@ =~= seq![' ']);
            assert(s@ =~= spec_header_text(*self));
        }
        let mut k: usize = 0;
        while k < spaces
            invariant
                k <= spaces,
                s@ =~= spec_header_text(*self) + Seq::new(k as nat, |i: int| ' '),
        decreases spaces - k,
        {
            s.append(" ");
            proof {
                reveal_strlit(" ");
                assert(s@ =~= spec_header_text(*self) + Seq::new((k + 1) as nat, |i: int| ' '));
            }
            k += 1;
        }
        s.append(self.help);
        proof {
            assert(s@ =~= spec_header_text(*self) + Seq::new(spaces as nat, |i: int| ' ')
                + self.help@);
        }
        s
    }
}

} // verus!
