//! Registery of commands: three independent mappings from command name to
//! executor, one per execution phase. All commands are registered in global
//! scope; registration is last-write-wins per name per phase.

use vstd::prelude::*;
use crate::assoc::{
    assoc_find, assoc_map, distinct_keys, lemma_assoc_absent, lemma_assoc_map, lemma_assoc_push,
    lemma_assoc_remove, lemma_assoc_update, lemma_assoc_update_any,
};


verus! {

/// Registery of commands, generic over the executor type of each phase.
#[verifier::reject_recursive_types(C)]
#[verifier::reject_recursive_types(M)]
#[verifier::reject_recursive_types(R)]
pub struct CommandRegistery<C, M, R> {
    ct_commands: Vec<(String, Box<C>)>,
    macros: Vec<(String, Box<M>)>,
    commands: Vec<(String, Box<R>)>,
}

impl<C, M, R> CommandRegistery<C, M, R> {
    /// The compile time commands, by name.
    pub closed spec fn ct_view(&self) -> Map<Seq<char>, Box<C>> {
        assoc_map(self.ct_commands@)
    }

    /// The macro commands, by name.
    pub closed spec fn macro_view(&self) -> Map<Seq<char>, Box<M>> {
        assoc_map(self.macros@)
    }

    /// The runtime commands, by name.
    pub closed spec fn rt_view(&self) -> Map<Seq<char>, Box<R>> {
        assoc_map(self.commands@)
    }

    /// Each phase's table holds one entry per name.
    pub closed spec fn wf(&self) -> bool {
        distinct_keys(self.ct_commands@) && distinct_keys(self.macros@) && distinct_keys(
            self.commands@,
        )
    }

    /// Constructs a new registery with no commands.
    pub fn new() -> (r: CommandRegistery<C, M, R>)
        ensures
            r.wf(),
            r.ct_view() == Map::<Seq<char>, Box<C>>::empty(),
            r.macro_view() == Map::<Seq<char>, Box<M>>::empty(),
            r.rt_view() == Map::<Seq<char>, Box<R>>::empty(),
    {
        CommandRegistery { ct_commands: Vec::new(), macros: Vec::new(), commands: Vec::new() }
    }

    /// Registers a compile time command.
    pub fn register_ct(&mut self, name: &String, cmd: C)
        requires
            old(self).wf(),
        ensures
            final(self).wf(),
            final(self).ct_view() == old(self).ct_view().insert(name@, Box::new(cmd)),
            final(self).macro_view() == old(self).macro_view(),
            final(self).rt_view() == old(self).rt_view(),
    {
        self.register_ct_boxed(name, Box::new(cmd));
    }

    /// Registers a macro command.
    pub fn register_macro(&mut self, name: &String, cmd: M)
        requires
            old(self).wf(),
        ensures
            final(self).wf(),
            final(self).macro_view() == old(self).macro_view().insert(name@, Box::new(cmd)),
            final(self).ct_view() == old(self).ct_view(),
            final(self).rt_view() == old(self).rt_view(),
    {
        self.register_macro_boxed(name, Box::new(cmd));
    }

    /// Registers a runtime command.
    pub fn register(&mut self, name: &String, cmd: R)
        requires
            old(self).wf(),
        ensures
            final(self).wf(),
            final(self).rt_view() == old(self).rt_view().insert(name@, Box::new(cmd)),
            final(self).ct_view() == old(self).ct_view(),
            final(self).macro_view() == old(self).macro_view(),
    {
        self.register_boxed(name, Box::new(cmd));
    }

    /// Registers an already boxed compile time command.
    pub fn register_ct_boxed(&mut self, name: &String, cmd: Box<C>)
        requires
            old(self).wf(),
        ensures
            final(self).wf(),
            final(self).ct_view() == old(self).ct_view().insert(name@, cmd),
            final(self).macro_view() == old(self).macro_view(),
            final(self).rt_view() == old(self).rt_view(),
    {
        let entry = (name.clone(), cmd);
        match assoc_find(&self.ct_commands, name) {
            Some(i) => {
                proof {
                    lemma_assoc_update(self.ct_commands@, i as int, entry);
                }
                self.ct_commands[i] = entry;
            },
            None => {
                proof {
                    lemma_assoc_absent(self.ct_commands@, name@);
                    lemma_assoc_push(self.ct_commands@, entry);
                }
                self.ct_commands.push(entry);
            },
        }
    }

    /// Registers an already boxed macro command.
    pub fn register_macro_boxed(&mut self, name: &String, cmd: Box<M>)
        requires
            old(self).wf(),
        ensures
            final(self).wf(),
            final(self).macro_view() == old(self).macro_view().insert(name@, cmd),
            final(self).ct_view() == old(self).ct_view(),
            final(self).rt_view() == old(self).rt_view(),
    {
        let entry = (name.clone(), cmd);
        match assoc_find(&self.macros, name) {
            Some(i) => {
                proof {
                    lemma_assoc_update(self.macros@, i as int, entry);
                }
                self.macros[i] = entry;
            },
            None => {
                proof {
                    lemma_assoc_absent(self.macros@, name@);
                    lemma_assoc_push(self.macros@, entry);
                }
                self.macros.push(entry);
            },
        }
    }

    /// Registers an already boxed runtime command.
    pub fn register_boxed(&mut self, name: &String, cmd: Box<R>)
        requires
            old(self).wf(),
        ensures
            final(self).wf(),
            final(self).rt_view() == old(self).rt_view().insert(name@, cmd),
            final(self).ct_view() == old(self).ct_view(),
            final(self).macro_view() == old(self).macro_view(),
    {
        let entry = (name.clone(), cmd);
        match assoc_find(&self.commands, name) {
            Some(i) => {
                proof {
                    lemma_assoc_update(self.commands@, i as int, entry);
                }
                self.commands[i] = entry;
            },
            None => {
                proof {
                    lemma_assoc_absent(self.commands@, name@);
                    lemma_assoc_push(self.commands@, entry);
                }
                self.commands.push(entry);
            },
        }
    }


    /// Gets the given compile time command for mutation.
    pub fn get_ct_command_mut(&mut self, name: &String) -> (r: Option<&mut Box<C>>)
        requires
            old(self).wf(),
        ensures
            final(self).wf(),
            final(self).macro_view() == old(self).macro_view(),
            final(self).rt_view() == old(self).rt_view(),
            match r {
                Some(c) => {
                    &&& old(self).ct_view().contains_key(name@)
                    &&& *c == old(self).ct_view()[name@]
                    &&& final(self).ct_view() == old(self).ct_view().insert(name@, *final(c))
                },
                None => {
                    &&& !old(self).ct_view().contains_key(name@)
                    &&& *final(self) == *old(self)
                },
            },
    {
        proof {
            lemma_assoc_map(self.ct_commands@);
        }
        match assoc_find(&self.ct_commands, name) {
            Some(i) => {
                proof {
                    lemma_assoc_update_any(self.ct_commands@, i as int);
                }
                let entry = &mut self.ct_commands[i];
                Some(&mut entry.1)
            },
            None => None,
        }
    }

    /// Gets the given macro command for mutation.
    pub fn get_macro_mut(&mut self, name: &String) -> (r: Option<&mut Box<M>>)
        requires
            old(self).wf(),
        ensures
            final(self).wf(),
            final(self).ct_view() == old(self).ct_view(),
            final(self).rt_view() == old(self).rt_view(),
            match r {
                Some(c) => {
                    &&& old(self).macro_view().contains_key(name@)
                    &&& *c == old(self).macro_view()[name@]
                    &&& final(self).macro_view() == old(self).macro_view().insert(name@, *final(c))
                },
                None => {
                    &&& !old(self).macro_view().contains_key(name@)
                    &&& *final(self) == *old(self)
                },
            },
    {
        proof {
            lemma_assoc_map(self.macros@);
        }
        match assoc_find(&self.macros, name) {
            Some(i) => {
                proof {
                    lemma_assoc_update_any(self.macros@, i as int);
                }
                let entry = &mut self.macros[i];
                Some(&mut entry.1)
            },
            None => None,
        }
    }

    /// Gets the given runtime command for mutation.
    pub fn get_command_mut(&mut self, name: &String) -> (r: Option<&mut Box<R>>)
        requires
            old(self).wf(),
        ensures
            final(self).wf(),
            final(self).ct_view() == old(self).ct_view(),
            final(self).macro_view() == old(self).macro_view(),
            match r {
                Some(c) => {
                    &&& old(self).rt_view().contains_key(name@)
                    &&& *c == old(self).rt_view()[name@]
                    &&& final(self).rt_view() == old(self).rt_view().insert(name@, *final(c))
                },
                None => {
                    &&& !old(self).rt_view().contains_key(name@)
                    &&& *final(self) == *old(self)
                },
            },
    {
        proof {
            lemma_assoc_map(self.commands@);
        }
        match assoc_find(&self.commands, name) {
            Some(i) => {
                proof {
                    lemma_assoc_update_any(self.commands@, i as int);
                }
                let entry = &mut self.commands[i];
                Some(&mut entry.1)
            },
            None => None,
        }
    }

    /// Gets the given compile time command.
    pub fn get_ct_command(&self, name: &String) -> (r: Option<&Box<C>>)
        requires
            self.wf(),
        ensures
            match r {
                Some(c) => self.ct_view().contains_key(name@) && *c == self.ct_view()[name@],
                None => !self.ct_view().contains_key(name@),
            },
    {
        proof {
            lemma_assoc_map(self.ct_commands@);
        }
        match assoc_find(&self.ct_commands, name) {
            Some(i) => Some(&self.ct_commands[i].1),
            None => None,
        }
    }

    /// Gets the given macro command.
    pub fn get_macro(&self, name: &String) -> (r: Option<&Box<M>>)
        requires
            self.wf(),
        ensures
            match r {
                Some(c) => self.macro_view().contains_key(name@) && *c == self.macro_view()[name@],
                None => !self.macro_view().contains_key(name@),
            },
    {
        proof {
            lemma_assoc_map(self.macros@);
        }
        match assoc_find(&self.macros, name) {
            Some(i) => Some(&self.macros[i].1),
            None => None,
        }
    }

    /// Gets the given runtime command.
    pub fn get_command(&self, name: &String) -> (r: Option<&Box<R>>)
        requires
            self.wf(),
        ensures
            match r {
                Some(c) => self.rt_view().contains_key(name@) && *c == self.rt_view()[name@],
                None => !self.rt_view().contains_key(name@),
            },
    {
        proof {
            lemma_assoc_map(self.commands@);
        }
        match assoc_find(&self.commands, name) {
            Some(i) => Some(&self.commands[i].1),
            None => None,
        }
    }

    /// Takes the given compile time command out of the registery.
    pub fn get_ct_command_move(&mut self, name: &String) -> (r: Option<
        Box<C>,
    >)
        requires
            old(self).wf(),
        ensures
            final(self).wf(),
            final(self).macro_view() == old(self).macro_view(),
            final(self).rt_view() == old(self).rt_view(),
            match r {
                Some(c) => {
                    &&& old(self).ct_view().contains_key(name@)
                    &&& c == old(self).ct_view()[name@]
                    &&& final(self).ct_view() == old(self).ct_view().remove(name@)
                },
                None => {
                    &&& !old(self).ct_view().contains_key(name@)
                    &&& *final(self) == *old(self)
                },
            },
    {
        proof {
            lemma_assoc_map(self.ct_commands@);
        }
        match assoc_find(&self.ct_commands, name) {
            Some(i) => {
                proof {
                    lemma_assoc_remove(self.ct_commands@, i as int);
                }
                let entry = self.ct_commands.remove(i);
                Some(entry.1)
            },
            None => None,
        }
    }

    /// Takes the given macro command out of the registery.
    pub fn get_macro_move(&mut self, name: &String) -> (r: Option<Box<M>>)
        requires
            old(self).wf(),
        ensures
            final(self).wf(),
            final(self).ct_view() == old(self).ct_view(),
            final(self).rt_view() == old(self).rt_view(),
            match r {
                Some(c) => {
                    &&& old(self).macro_view().contains_key(name@)
                    &&& c == old(self).macro_view()[name@]
                    &&& final(self).macro_view() == old(self).macro_view().remove(name@)
                },
                None => {
                    &&& !old(self).macro_view().contains_key(name@)
                    &&& *final(self) == *old(self)
                },
            },
    {
        proof {
            lemma_assoc_map(self.macros@);
        }
        match assoc_find(&self.macros, name) {
            Some(i) => {
                proof {
                    lemma_assoc_remove(self.macros@, i as int);
                }
                let entry = self.macros.remove(i);
                Some(entry.1)
            },
            None => None,
        }
    }

    /// Takes the given runtime command out of the registery.
    pub fn get_command_move(&mut self, name: &String) -> (r: Option<Box<R>>)
        requires
            old(self).wf(),
        ensures
            final(self).wf(),
            final(self).ct_view() == old(self).ct_view(),
            final(self).macro_view() == old(self).macro_view(),
            match r {
                Some(c) => {
                    &&& old(self).rt_view().contains_key(name@)
                    &&& c == old(self).rt_view()[name@]
                    &&& final(self).rt_view() == old(self).rt_view().remove(name@)
                },
                None => {
                    &&& !old(self).rt_view().contains_key(name@)
                    &&& *final(self) == *old(self)
                },
            },
    {
        proof {
            lemma_assoc_map(self.commands@);
        }
        match assoc_find(&self.commands, name) {
            Some(i) => {
                proof {
                    lemma_assoc_remove(self.commands@, i as int);
                }
                let entry = self.commands.remove(i);
                Some(entry.1)
            },
            None => None,
        }
    }
}

} // verus!
