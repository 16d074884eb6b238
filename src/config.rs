//! The run's configuration, read once from the command-line arguments.
use vstd::prelude::*;
use crate::json::{chars_of, same_chars};
use crate::transform::ErrorKind;

verus! {

/// Where the run writes: the database file, the table in it, and the CSV file.
#[derive(Debug)]
pub struct Config {
    pub db: String,
    pub table: String,
    pub csv: String,
}

pub struct ConfigView {
    pub db: Seq<char>,
    pub table: Seq<char>,
    pub csv: Seq<char>,
}

impl View for Config {
    type V = ConfigView;

    open spec fn view(&self) -> ConfigView {
        ConfigView { db: self.db@, table: self.table@, csv: self.csv@ }
    }
}

pub open spec fn default_config() -> ConfigView {
    ConfigView { db: "world_data.db"@, table: "countries"@, csv: "countries.csv"@ }
}

/// The configuration that the flags `args` make of `c`: each of `--db`,
/// `--table` and `--csv` takes the next argument as its value; a flag without
/// a value, or any other argument, is an argument error.
pub open spec fn apply_flags(args: Seq<Seq<char>>, c: ConfigView) -> Result<ConfigView, ErrorKind>
    decreases args.len(),
{
    if args.len() == 0 {
        Ok(c)
    } else if args[0] != "--db"@ && args[0] != "--table"@ && args[0] != "--csv"@ {
        Err(ErrorKind::Argument)
    } else if args.len() < 2 {
        Err(ErrorKind::Argument)
    } else if args[0] == "--db"@ {
        apply_flags(args.skip(2), ConfigView { db: args[1], ..c })
    } else if args[0] == "--table"@ {
        apply_flags(args.skip(2), ConfigView { table: args[1], ..c })
    } else {
        apply_flags(args.skip(2), ConfigView { csv: args[1], ..c })
    }
}

pub open spec fn arg_views(args: Seq<String>) -> Seq<Seq<char>> {
    args.map_values(|s: String| s@)
}

/// Reads the flags that follow the program name.
pub fn parse_args(args: &Vec<String>) -> (r: Result<Config, ErrorKind>)
    ensures
        match r {
            Ok(c) => apply_flags(arg_views(args@), default_config()) == Ok::<ConfigView, ErrorKind>(c@),
            Err(e) => apply_flags(arg_views(args@), default_config()) == Err::<ConfigView, ErrorKind>(e),
        },
{
    let db_flag = chars_of("--db");
    let table_flag = chars_of("--table");
    let csv_flag = chars_of("--csv");
    let mut c = Config { db: "world_data.db".to_owned(), table: "countries".to_owned(), csv: "countries.csv".to_owned() };
    let ghost views = arg_views(args@);
    let mut i: usize = 0;
    assert(views.skip(0) =~= views);
    assert(c@ == default_config());
    while i < args.len()
        invariant
            i <= args@.len(),
            views == arg_views(args@),
            db_flag@ == "--db"@,
            table_flag@ == "--table"@,
            csv_flag@ == "--csv"@,
            apply_flags(views, default_config()) == apply_flags(views.skip(i as int), c@),
        decreases args@.len() - i,
    {
        let ghost rest = views.skip(i as int);
        assert(rest[0] == args@[i as int]@);
        let flag = chars_of(args[i].as_str());
        let is_db = same_chars(&flag, &db_flag);
        let is_table = same_chars(&flag, &table_flag);
        let is_csv = same_chars(&flag, &csv_flag);
        if !is_db && !is_table && !is_csv {
            return Err(ErrorKind::Argument);
        }
        if i + 1 >= args.len() {
            return Err(ErrorKind::Argument);
        }
        assert(rest[1] == args@[i + 1]@);
        assert(rest.skip(2) =~= views.skip(i + 2));
        let value = args[i + 1].clone();
        if is_db {
            c.db = value;
        } else if is_table {
            c.table = value;
        } else {
            c.csv = value;
        }
        i += 2;
    }
    assert(views.skip(i as int) =~= Seq::<Seq<char>>::empty());
    Ok(c)
}

} // verus!
