//! User settings and the whole-directory backup location.
use vstd::prelude::*;
use vstd::string::*;

verus! {

/// The application's settings.
pub struct AppConfig {
    pub game_path: Option<String>,
    pub auto_update: bool,
    pub auto_start: bool,
    pub github_repo: String,
    pub check_update_on_startup: bool,
    pub language: String,
}

impl Default for AppConfig {
    fn default() -> (r: Self)
        ensures
            r.game_path is None,
            r.auto_update,
            !r.auto_start,
            r.github_repo@ == "TomiWixoss/priconevh"@,
            r.check_update_on_startup,
            r.language@ == "vi"@,
    {
        AppConfig {
            game_path: None,
            auto_update: true,
            auto_start: false,
            github_repo: String::from_str("TomiWixoss/priconevh"),
            check_update_on_startup: true,
            language: String::from_str("vi"),
        }
    }
}

/// Why a file operation cannot be planned.
#[derive(Clone, Copy, Debug, PartialEq, Eq, Structural)]
pub enum FileError {
    /// The source is a root and has no parent directory.
    NoParent,
}

/// Whole-directory file operations.
pub struct FileService;

impl FileService {
    /// Where a whole-directory backup of `source` (a path, one name per
    /// component, the first being the root) goes: beside it, named
    /// `<backup_name>_backup`. A root has no parent, hence no such place.
    pub fn create_backup(source: &Vec<String>, backup_name: &str) -> (r: Result<Vec<String>, FileError>)
        ensures
            r is Ok <==> source@.len() >= 2,
            r is Err ==> r->Err_0 == FileError::NoParent,
            r is Ok ==> r->Ok_0.deep_view() == source.deep_view().drop_last().push(backup_name@ + "_backup"@),
    {
        if source.len() < 2 {
            return Err(FileError::NoParent);
        }
        let mut out: Vec<String> = Vec::new();
        let mut i: usize = 0;
        while i < source.len() - 1
            invariant
                source@.len() >= 2,
                i <= source@.len() - 1,
                out.deep_view() == source.deep_view().take(i as int),
            decreases source@.len() - i,
        {
            let ghost before = out.deep_view();
            out.push(source[i].clone());
            assert(out.deep_view() =~= before.push(source@[i as int]@));
            assert(source.deep_view().take(i + 1) =~= source.deep_view().take(i as int).push(source@[i as int]@));
            i += 1;
        }
        let name = backup_name.to_string().concat("_backup");
        let ghost before = out.deep_view();
        out.push(name);
        assert(out.deep_view() =~= before.push(backup_name@ + "_backup"@));
        assert(source.deep_view().take(i as int) =~= source.deep_view().drop_last());
        Ok(out)
    }
}

} // verus!
