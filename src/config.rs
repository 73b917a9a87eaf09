//! The registry of book lists: which lists there are and which is the default,
//! and where their files lie under a given home directory. Reading and writing
//! files is left to the caller, who hands in what it found.
use vstd::prelude::*;

use crate::search::{resolve, IndexSearch};
use crate::text::{chars_of, decimal_chars, push_all, string_of};

verus! {

/// The directory of the tool's files, under the home directory.
pub open spec fn config_dir() -> Seq<char> {
    "/.config/wych_book/"@
}

/// Why a change to the registry was refused.
#[derive(Debug, Clone, Copy, PartialEq, Eq, Structural)]
pub enum ConfigError {
    /// The list chosen as default has no file.
    ListMissing,
    /// No list answers to the name or index given for deletion.
    DeleteMissing,
    /// The default list cannot be deleted.
    DeleteDefault,
    /// The list to copy from has no file.
    CopyMissing,
}

impl ConfigError {
    /// The message shown to the user.
    pub fn message(&self) -> (r: &'static str)
        ensures
            r@ == error_message(*self),
    {
        match self {
            ConfigError::ListMissing => "Provided list does not exist",
            ConfigError::DeleteMissing => "Cannot delete a non-existent list",
            ConfigError::DeleteDefault => "Cannot delete default list",
            ConfigError::CopyMissing => "Cannot copy a non-existent list",
        }
    }
}

pub open spec fn error_message(e: ConfigError) -> Seq<char> {
    match e {
        ConfigError::ListMissing => "Provided list does not exist"@,
        ConfigError::DeleteMissing => "Cannot delete a non-existent list"@,
        ConfigError::DeleteDefault => "Cannot delete default list"@,
        ConfigError::CopyMissing => "Cannot copy a non-existent list"@,
    }
}

/// The path of the registry file under home directory `home`.
pub fn config_file(home: &str) -> (r: String)
    ensures
        r@ == home@ + config_dir() + "config.json"@,
{
    let mut out = chars_of(home);
    push_all(&mut out, &chars_of("/.config/wych_book/"));
    push_all(&mut out, &chars_of("config.json"));
    string_of(&out)
}

/// The path of the file of list `name` under home directory `home`.
pub fn csv_file(home: &str, name: &str) -> (r: String)
    ensures
        r@ == home@ + config_dir() + "lists/"@ + name@ + ".csv"@,
{
    let mut out = chars_of(home);
    push_all(&mut out, &chars_of("/.config/wych_book/"));
    push_all(&mut out, &chars_of("lists/"));
    push_all(&mut out, &chars_of(name));
    push_all(&mut out, &chars_of(".csv"));
    string_of(&out)
}

/// The names of the known lists, and the one used when none is named.
#[derive(Debug)]
pub struct WychConfig {
    default_list: String,
    all_lists: Vec<String>,
}

/// Whether a list is called `input`.
pub open spec fn named(input: Seq<char>) -> spec_fn(String) -> bool {
    |l: String| l@ == input
}

/// The lists of `lists` whose flag in `keep` is set, in order.
pub open spec fn kept(lists: Seq<String>, keep: Seq<bool>) -> Seq<String>
    decreases lists.len(),
{
    if lists.len() == 0 || keep.len() == 0 {
        Seq::empty()
    } else if keep.last() {
        kept(lists.drop_last(), keep.drop_last()).push(lists.last())
    } else {
        kept(lists.drop_last(), keep.drop_last())
    }
}

impl WychConfig {
    /// The list names, in order.
    pub closed spec fn lists(&self) -> Seq<String> {
        self.all_lists@
    }

    /// The name of the default list; empty when there is none.
    pub closed spec fn default_name(&self) -> String {
        self.default_list
    }

    pub fn new(default_list: String, all_lists: Vec<String>) -> (r: WychConfig)
        ensures
            r.default_name() == default_list,
            r.lists() == all_lists@,
    {
        WychConfig { default_list, all_lists }
    }

    /// The name of the default list.
    pub fn get_default(&self) -> (r: &str)
        ensures
            r@ == self.default_name()@,
    {
        self.default_list.as_str()
    }

    /// The list names, in order.
    pub fn all_lists(&self) -> (r: &Vec<String>)
        ensures
            r@ == self.lists(),
    {
        &self.all_lists
    }

    /// The path of the default list's file under home directory `home`.
    pub fn default_csv(&self, home: &str) -> (r: String)
        ensures
            r@ == home@ + config_dir() + "lists/"@ + self.default_name()@ + ".csv"@,
    {
        csv_file(home, self.default_list.as_str())
    }

    /// Makes the list that `input` names, by index or by name, the default.
    /// Nothing changes when `input` names no list; `exists` tells whether the
    /// named list has a file, and an error comes when it has none.
    pub fn set_default(&mut self, input: &str, exists: bool) -> (r: Result<(), ConfigError>)
        ensures
            final(self).lists() == old(self).lists(),
            match resolve(old(self).lists(), input@, named(input@)) {
                None => r is Ok && final(self).default_name() == old(self).default_name(),
                Some(i) => if exists {
                    r is Ok && final(self).default_name()@ == old(self).lists()[i]@
                } else {
                    r == Err::<(), ConfigError>(ConfigError::ListMissing)
                        && final(self).default_name() == old(self).default_name()
                },
            },
    {
        let found = match self.get_from_input(input) {
            Some((_, list)) => Some(list.clone()),
            None => None,
        };
        proof {
            self.lemma_resolves_by_name(input@);
        }
        match found {
            None => Ok(()),
            Some(list) => {
                if !exists {
                    Err(ConfigError::ListMissing)
                } else {
                    self.default_list = list;
                    Ok(())
                }
            },
        }
    }

    /// Records a newly made list. When there is no default yet, `name` is then
    /// taken as the default the way `set_default` takes it.
    pub fn add_new_empty_list(&mut self, name: &str)
        ensures
            final(self).lists().len() == old(self).lists().len() + 1,
            final(self).lists().take(old(self).lists().len() as int) == old(self).lists(),
            final(self).lists().last()@ == name@,
            old(self).default_name()@.len() > 0 ==> final(self).default_name()
                == old(self).default_name(),
            old(self).default_name()@.len() == 0 ==> match resolve(
                final(self).lists(),
                name@,
                named(name@),
            ) {
                None => final(self).default_name() == old(self).default_name(),
                Some(i) => final(self).default_name()@ == final(self).lists()[i]@,
            },
    {
        self.all_lists.push(name.to_owned());
        assert(self.lists().take(old(self).lists().len() as int) =~= old(self).lists());
        if self.default_list.as_str().is_empty() {
            let _ = self.set_default(name, true);
        }
    }

    /// The registry's part of copying list `from` to list `to`: an error when
    /// `from` has no file (`from_exists`), nothing when `to` has a file
    /// (`to_exists`) that may not be overwritten; else `to` is recorded, unless
    /// already known, and `true` tells the caller to copy the file.
    pub fn copy_csv_list(&mut self, to: &str, from_exists: bool, to_exists: bool, overwrite: bool)
        -> (r: Result<bool, ConfigError>)
        ensures
            !from_exists ==> r == Err::<bool, ConfigError>(ConfigError::CopyMissing) && *final(self)
                == *old(self),
            from_exists && to_exists && !overwrite ==> r == Ok::<bool, ConfigError>(false)
                && *final(self) == *old(self),
            from_exists && (!to_exists || overwrite) ==> r == Ok::<bool, ConfigError>(true)
                && final(self).default_name() == old(self).default_name() && if exists|i: int|
                0 <= i < old(self).lists().len() && old(self).lists()[i]@ == to@ {
                final(self).lists() == old(self).lists()
            } else {
                final(self).lists().len() == old(self).lists().len() + 1 && final(self).lists().take(
                    old(self).lists().len() as int,
                ) == old(self).lists() && final(self).lists().last()@ == to@
            },
    {
        if !from_exists {
            Err(ConfigError::CopyMissing)
        } else if to_exists && !overwrite {
            Ok(false)
        } else {
            self.register_list(to);
            Ok(true)
        }
    }

    /// Records `name` as a list unless it is already known.
    fn register_list(&mut self, name: &str)
        ensures
            final(self).default_name() == old(self).default_name(),
            (exists|i: int| 0 <= i < old(self).lists().len() && old(self).lists()[i]@ == name@)
                ==> final(self).lists() == old(self).lists(),
            !(exists|i: int| 0 <= i < old(self).lists().len() && old(self).lists()[i]@ == name@)
                ==> final(self).lists().len() == old(self).lists().len() + 1 && final(self).lists().take(old(self).lists().len() as int) == old(self).lists() && final(self).lists().last()@ == name@,
    {
        let key = name.to_owned();
        let mut i: usize = 0;
        while i < self.all_lists.len()
            invariant
                self.all_lists@ == old(self).all_lists@,
                self.default_list == old(self).default_list,
                i <= self.all_lists@.len(),
                key@ == name@,
                forall|j: int| 0 <= j < i ==> (#[trigger] self.all_lists@[j])@ != name@,
            decreases self.all_lists.len() - i,
        {
            if self.all_lists[i] == key {
                return;
            }
            i += 1;
        }
        self.all_lists.push(key);
        assert(self.lists().take(old(self).lists().len() as int) =~= old(self).lists());
    }

    /// Takes the list that `input` names out of the registry and gives its
    /// name, so that its file can be removed. The default list stays.
    pub fn delete_list(&mut self, input: &str) -> (r: Result<String, ConfigError>)
        ensures
            match resolve(old(self).lists(), input@, named(input@)) {
                None => r == Err::<String, ConfigError>(ConfigError::DeleteMissing) && *final(self)
                    == *old(self),
                Some(i) => if old(self).lists()[i]@ == old(self).default_name()@ {
                    r == Err::<String, ConfigError>(ConfigError::DeleteDefault) && *final(self)
                        == *old(self)
                } else {
                    r matches Ok(name) && name@ == old(self).lists()[i]@ && final(self).lists()
                        == old(self).lists().remove(i) && final(self).default_name()
                        == old(self).default_name()
                },
            },
    {
        let found = match self.get_from_input(input) {
            Some((i, _)) => Some(i),
            None => None,
        };
        proof {
            self.lemma_resolves_by_name(input@);
        }
        match found {
            None => Err(ConfigError::DeleteMissing),
            Some(i) => {
                if self.all_lists[i] == self.default_list {
                    Err(ConfigError::DeleteDefault)
                } else {
                    Ok(self.all_lists.remove(i))
                }
            },
        }
    }

    /// Drops the lists whose file is gone: `list_exists` holds a flag for each
    /// list in order, `default_exists` one for the default list. When the
    /// default's file is gone, the first remaining list becomes the default,
    /// or none when no list remains.
    pub fn validate_config(&mut self, list_exists: &Vec<bool>, default_exists: bool)
        requires
            list_exists@.len() == old(self).lists().len(),
        ensures
            final(self).lists() == kept(old(self).lists(), list_exists@),
            default_exists ==> final(self).default_name() == old(self).default_name(),
            !default_exists && final(self).lists().len() > 0 ==> final(self).default_name()
                == final(self).lists()[0],
            !default_exists && final(self).lists().len() == 0 ==> final(self).default_name()@.len() == 0,
    {
        let mut remaining: Vec<String> = Vec::new();
        let n = self.all_lists.len();
        let mut i: usize = 0;
        while i < n
            invariant
                n == self.all_lists@.len(),
                self.all_lists@ == old(self).all_lists@,
                self.default_list == old(self).default_list,
                list_exists@.len() == n,
                i <= n,
                remaining@ == kept(self.all_lists@.take(i as int), list_exists@.take(i as int)),
            decreases n - i,
        {
            assert(self.all_lists@.take(i + 1).drop_last() =~= self.all_lists@.take(i as int));
            assert(list_exists@.take(i + 1).drop_last() =~= list_exists@.take(i as int));
            if list_exists[i] {
                remaining.push(self.all_lists[i].clone());
            }
            i += 1;
        }
        assert(self.all_lists@.take(n as int) =~= self.all_lists@);
        assert(list_exists@.take(n as int) =~= list_exists@);
        self.all_lists = remaining;
        if !default_exists {
            if self.all_lists.len() == 0 {
                self.default_list = String::new();
            } else {
                self.default_list = self.all_lists[0].clone();
            }
        }
    }

    /// The default list and every list with its index, one per line.
    pub fn to_string(&self) -> (r: String)
        ensures
            r@ == "Default List: "@ + self.default_name()@ + "\nAll Lists:\n"@ + listing(
                self.lists(),
            ),
    {
        let mut out = chars_of("Default List: ");
        push_all(&mut out, &chars_of(self.default_list.as_str()));
        push_all(&mut out, &chars_of("\nAll Lists:\n"));
        let ghost head = out@;
        let mut i: usize = 0;
        while i < self.all_lists.len()
            invariant
                i <= self.all_lists@.len(),
                out@ == head + listing(self.all_lists@.take(i as int)),
            decreases self.all_lists.len() - i,
        {
            assert(self.all_lists@.take(i + 1).drop_last() =~= self.all_lists@.take(i as int));
            push_all(&mut out, &chars_of("- "));
            push_all(&mut out, &decimal_chars(i));
            push_all(&mut out, &chars_of(": "));
            push_all(&mut out, &chars_of(self.all_lists[i].as_str()));
            out.push('\n');
            assert(out@ =~= head + listing(self.all_lists@.take(i + 1)));
            i += 1;
        }
        assert(self.all_lists@.take(i as int) =~= self.all_lists@);
        string_of(&out)
    }

    proof fn lemma_resolves_by_name(&self, input: Seq<char>)
        ensures
            resolve(self.collection(), input, |it: String| self.matches(it, input)) == resolve(
                self.lists(),
                input,
                named(input),
            ),
    {
        assert((|it: String| self.matches(it, input)) =~= named(input));
    }
}

/// Each list on a line of its own, as `- <index>: <name>`.
pub open spec fn listing(lists: Seq<String>) -> Seq<char>
    decreases lists.len(),
{
    if lists.len() == 0 {
        Seq::empty()
    } else {
        listing(lists.drop_last()) + "- "@ + crate::text::decimal((lists.len() - 1) as nat) + ": "@
            + lists.last()@ + seq!['\n']
    }
}

impl IndexSearch for WychConfig {
    type Item = String;

    open spec fn collection(&self) -> Seq<String> {
        self.lists()
    }

    open spec fn matches(&self, item: String, input: Seq<char>) -> bool {
        item@ == input
    }

    fn get_collection(&self) -> (r: &Vec<String>) {
        &self.all_lists
    }

    fn is_equal(&self, item: &String, input: &str) -> (r: bool) {
        *item == input.to_owned()
    }
}

} // verus!
