//! Generates Unity type trees for `MonoBehaviour` and `ScriptableObject`
//! scripts from a model of a game's .NET assemblies.
mod text;
pub mod field;
pub mod template;
pub mod typetree;
pub mod metadata;
pub mod generator;
pub mod assembly;
pub mod version;

pub use version::UnityVersion;
pub use assembly::AssemblyTypeTreeGenerator;
pub use typetree::TypeTreeNode;
