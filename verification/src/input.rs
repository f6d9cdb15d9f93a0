//! What the user asks to be compiled.

use indexmap::IndexSet;
use vstd::prelude::*;

verus! {

/// Everything that one model is compiled from.
pub struct SourceInput {
    /// The name of the model file to write.
    pub model_name: String,
    /// Where the model is exported to.
    pub export_path: Option<String>,
    pub model_groups: Vec<BodyGroup>,
    pub define_bones: Vec<DefineBone>,
    /// The next free animation identifier.
    pub animation_identifier_generator: usize,
    pub animations: Vec<Animation>,
    pub sequences: Vec<Sequence>,
}

/// A group of models of which one is shown at a time.
pub struct BodyGroup {
    /// The unique name of the group.
    pub name: String,
    pub models: Vec<Model>,
}

/// One model of a group.
pub struct Model {
    /// The unique name of the model.
    pub name: String,
    /// A blank model has no mesh.
    pub blank: bool,
    /// The file that the mesh is taken from.
    pub source_file_path: Option<String>,
    /// The names of the parts of the file that are left out.
    pub disabled_parts: IndexSet<String>,
}

/// A bone that the user declares. Its location and rotation, where they are
/// defined, are kept beside this record by whoever edits them.
pub struct DefineBone {
    /// The unique name of the bone.
    pub name: String,
    pub define_parent: bool,
    /// The name of the parent, where `define_parent` is set.
    pub parent: String,
    pub define_location: bool,
    pub define_rotation: bool,
}

/// An animation that the user takes from a file.
pub struct Animation {
    /// The unique name of the animation.
    pub name: String,
    /// The file that the animation is taken from.
    pub source_file_path: Option<String>,
    /// The position of the animation in that file.
    pub source_animation: usize,
    /// What sequences refer to the animation by. It stays the same when
    /// animations are renamed or put in another order.
    pub animation_identifier: usize,
}

/// A sequence: a grid of animations.
pub struct Sequence {
    /// The unique name of the sequence.
    pub name: String,
    /// The animation identifiers, row by row.
    pub animations: Vec<Vec<usize>>,
}

impl Default for SourceInput {
    fn default() -> (created: Self)
        ensures
            created.model_name@.len() == 0,
            created.export_path.is_none(),
            created.model_groups@.len() == 0,
            created.define_bones@.len() == 0,
            created.animation_identifier_generator == 0,
            created.animations@.len() == 0,
            created.sequences@.len() == 0,
    {
        SourceInput {
            model_name: String::new(),
            export_path: None,
            model_groups: Vec::new(),
            define_bones: Vec::new(),
            animation_identifier_generator: 0,
            animations: Vec::new(),
            sequences: Vec::new(),
        }
    }
}

impl Default for BodyGroup {
    fn default() -> (created: Self)
        ensures
            created.name@ == "New Body Group"@,
            created.models@.len() == 0,
    {
        BodyGroup { name: "New Body Group".to_owned(), models: Vec::new() }
    }
}

impl Default for Model {
    fn default() -> (created: Self)
        ensures
            created.name@ == "New Model"@,
            !created.blank,
            created.source_file_path.is_none(),
            crate::ordered::name_set_items(created.disabled_parts).len() == 0,
    {
        Model {
            name: "New Model".to_owned(),
            blank: false,
            source_file_path: None,
            disabled_parts: crate::ordered::name_set_new(),
        }
    }
}

impl Default for DefineBone {
    fn default() -> (created: Self)
        ensures
            created.name@ == "New Bone"@,
            !created.define_parent,
            created.parent@.len() == 0,
            !created.define_location,
            !created.define_rotation,
    {
        DefineBone {
            name: "New Bone".to_owned(),
            define_parent: false,
            parent: String::new(),
            define_location: false,
            define_rotation: false,
        }
    }
}

impl Default for Animation {
    fn default() -> (created: Self)
        ensures
            created.name@ == "New Animation"@,
            created.source_file_path.is_none(),
            created.source_animation == 0,
            created.animation_identifier == 0,
    {
        Animation {
            name: "New Animation".to_owned(),
            source_file_path: None,
            source_animation: 0,
            animation_identifier: 0,
        }
    }
}

impl Default for Sequence {
    fn default() -> (created: Self)
        ensures
            created.name@ == "New Sequence"@,
            created.animations@.len() == 0,
    {
        Sequence { name: "New Sequence".to_owned(), animations: Vec::new() }
    }
}

} // verus!
