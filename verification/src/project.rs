//! The modules of a project that have been loaded so far.

use vstd::prelude::*;

use crate::acorn_type::ModuleId;
use crate::binding_map::{BindingMap, BindingMapV};
use crate::table::Table;

verus! {

/// What came of loading a module by name.
#[derive(Debug)]
pub enum LoadResult {
    /// The module has a number.
    Loaded(ModuleId),
    /// The import itself is at fault, like a circular one.
    Failed(String),
}

impl View for LoadResult {
    type V = Result<ModuleId, Seq<char>>;

    open spec fn view(&self) -> Result<ModuleId, Seq<char>> {
        match self {
            LoadResult::Loaded(m) => Ok(*m),
            LoadResult::Failed(s) => Err(s@),
        }
    }
}

/// The modules that have been loaded. A module with errors has a number but no scope.
pub struct Project {
    bindings: Table<ModuleId, BindingMap>,
    names: Table<String, LoadResult>,
}

/// The model of a project.
pub struct ProjectV {
    pub modules: Map<ModuleId, BindingMapV>,
    pub names: Map<Seq<char>, Result<ModuleId, Seq<char>>>,
}

impl View for Project {
    type V = ProjectV;

    closed spec fn view(&self) -> ProjectV {
        ProjectV { modules: self.bindings@, names: self.names@ }
    }
}

impl ProjectV {
    /// The project without modules.
    pub open spec fn empty() -> ProjectV {
        ProjectV { modules: Map::empty(), names: Map::empty() }
    }

    /// What comes of importing a module by its full name.
    pub open spec fn load(self, name: Seq<char>) -> Result<ModuleId, Seq<char>> {
        if self.names.dom().contains(name) {
            self.names[name]
        } else {
            Err("unknown module"@)
        }
    }
}

impl Project {
    /// A project without modules.
    pub fn new() -> (r: Self)
        ensures
            r@ == ProjectV::empty(),
    {
        Project { bindings: Table::new(), names: Table::new() }
    }

    /// A project without modules, for trying things out.
    pub fn new_mock() -> (r: Self)
        ensures
            r@ == ProjectV::empty(),
    {
        Project::new()
    }

    /// Records a module that was loaded. Without a scope it is one that has errors.
    pub fn add_module(&mut self, name: &str, module: ModuleId, bindings: Option<BindingMap>)
        ensures
            final(self)@ == (ProjectV {
                names: old(self)@.names.insert(name@, Ok(module)),
                modules: match bindings {
                    Some(b) => old(self)@.modules.insert(module, b@),
                    None => old(self)@.modules.remove(module),
                },
            }),
    {
        self.names.insert(name.to_owned(), LoadResult::Loaded(module));
        match bindings {
            Some(b) => {
                self.bindings.insert(module, b);
            },
            None => {
                self.bindings.remove(&module);
            },
        }
    }

    /// Records that a module could not be loaded.
    pub fn add_failure(&mut self, name: &str, message: &str)
        ensures
            final(self)@ == (ProjectV {
                names: old(self)@.names.insert(name@, Err(message@)),
                ..old(self)@
            }),
    {
        self.names.insert(name.to_owned(), LoadResult::Failed(message.to_owned()));
    }

    /// The scope of a module that was loaded without errors.
    pub fn get_bindings(&self, module: ModuleId) -> (r: Option<&BindingMap>)
        ensures
            match r {
                Some(b) => self@.modules.dom().contains(module) && self@.modules[module] == b@,
                None => !self@.modules.dom().contains(module),
            },
    {
        self.bindings.get(&module)
    }

    /// The number of a module, by its full name.
    pub fn load_module(&self, name: &str) -> (r: Result<ModuleId, String>)
        ensures
            match r {
                Ok(m) => self@.load(name@) == Ok::<ModuleId, Seq<char>>(m),
                Err(s) => self@.load(name@) == Err::<ModuleId, Seq<char>>(s@),
            },
    {
        match self.names.get(&name.to_owned()) {
            Some(LoadResult::Loaded(m)) => Ok(*m),
            Some(LoadResult::Failed(s)) => Err(s.clone()),
            None => Err("unknown module".to_owned()),
        }
    }
}

} // verus!
