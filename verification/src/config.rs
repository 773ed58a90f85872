//! The settings that a session starts with.

use vstd::prelude::*;
use vstd::string::StringExecFns;
use crate::format::{FormatRadix, OutputFormat};
use crate::options::Options;

verus! {

/// The settings that a session starts with.
#[derive(Debug, PartialEq, Eq)]
pub struct Config {
    prompt: String,
    header: bool,
    output_radix: FormatRadix,
    punctuate_output: bool,
}

/// The prompt of a session that is given no other.
pub fn default_prompt() -> (r: String)
    ensures
        r@ == "cork> "@,
{
    String::from_str("cork> ")
}

/// Whether a session shows its header if nothing says otherwise.
pub fn default_header() -> (r: bool)
    ensures
        r,
{
    true
}

impl Config {
    /// The prompt.
    pub closed spec fn spec_prompt(&self) -> Seq<char> {
        self.prompt@
    }

    /// Whether the header is shown.
    pub closed spec fn spec_header(&self) -> bool {
        self.header
    }

    /// The radix in which results are printed.
    pub closed spec fn spec_output_radix(&self) -> FormatRadix {
        self.output_radix
    }

    /// Whether the digits of results are grouped.
    pub closed spec fn spec_punctuate_output(&self) -> bool {
        self.punctuate_output
    }

    /// The settings with these values.
    pub fn new(prompt: String, header: bool, output_radix: FormatRadix, punctuate_output: bool) -> (r:
        Config)
        ensures
            r.spec_prompt() == prompt@,
            r.spec_header() == header,
            r.spec_output_radix() == output_radix,
            r.spec_punctuate_output() == punctuate_output,
    {
        Config { prompt, header, output_radix, punctuate_output }
    }

    /// The prompt.
    pub fn prompt(&self) -> (r: &String)
        ensures
            r@ == self.spec_prompt(),
    {
        &self.prompt
    }

    /// Whether the header is shown.
    pub fn header(&self) -> (r: &bool)
        ensures
            *r == self.spec_header(),
    {
        &self.header
    }

    /// The radix in which results are printed.
    pub fn output_radix(&self) -> (r: &FormatRadix)
        ensures
            *r == self.spec_output_radix(),
    {
        &self.output_radix
    }

    /// Whether the digits of results are grouped.
    pub fn punctuate_output(&self) -> (r: &bool)
        ensures
            *r == self.spec_punctuate_output(),
    {
        &self.punctuate_output
    }

    /// Lets the command line switch the grouping of digits on; nothing on
    /// the command line switches it off.
    pub fn override_from_options(&mut self, options: &Options)
        ensures
            final(self).spec_prompt() == old(self).spec_prompt(),
            final(self).spec_header() == old(self).spec_header(),
            final(self).spec_output_radix() == old(self).spec_output_radix(),
            final(self).spec_punctuate_output() == (old(self).spec_punctuate_output()
                || options.punctuate_output),
    {
        if options.punctuate_output {
            self.punctuate_output = true;
        }
    }

    /// The format in which a session with these settings prints at first.
    pub fn output_format(&self) -> (r: OutputFormat)
        ensures
            r == (OutputFormat {
                radix: self.spec_output_radix(),
                punctuate_number: self.spec_punctuate_output(),
            }),
    {
        OutputFormat::default().with_format_radix(self.output_radix).with_punctuate_number(
            self.punctuate_output,
        )
    }
}

impl Default for Config {
    /// The settings of a session that is given none: the prompt `cork> `,
    /// the header shown, results in hexadecimal, digits not grouped.
    fn default() -> (r: Config)
        ensures
            r.spec_prompt() == "cork> "@,
            r.spec_header(),
            r.spec_output_radix() == FormatRadix::Hex,
            !r.spec_punctuate_output(),
    {
        Config {
            prompt: default_prompt(),
            header: default_header(),
            output_radix: FormatRadix::Hex,
            punctuate_output: false,
        }
    }
}

/// Where the configuration file is looked for, below the home directory:
/// each place as the names of its path, the places in the order in which
/// they are read.
pub fn config_locations() -> (r: Vec<Vec<&'static str>>)
    ensures
        r@.len() == 3,
        r@[0]@.len() == 1 && r@[0]@[0]@ == ".cork.yml"@,
        r@[1]@.len() == 2 && r@[1]@[0]@ == ".cork"@ && r@[1]@[1]@ == "cork.yml"@,
        r@[2]@.len() == 3 && r@[2]@[0]@ == ".config"@ && r@[2]@[1]@ == "cork"@ && r@[2]@[2]@
            == "cork.yml"@,
{
    let mut at_home: Vec<&'static str> = Vec::new();
    at_home.push(".cork.yml");
    let mut at_cork: Vec<&'static str> = Vec::new();
    at_cork.push(".cork");
    at_cork.push("cork.yml");
    let mut at_config: Vec<&'static str> = Vec::new();
    at_config.push(".config");
    at_config.push("cork");
    at_config.push("cork.yml");
    let mut places: Vec<Vec<&'static str>> = Vec::new();
    places.push(at_home);
    places.push(at_cork);
    places.push(at_config);
    places
}

} // verus!
