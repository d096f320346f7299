//! The compile-time registry of cluster machines: a stable index, the
//! hostname, the CPU count and the outbound interface of each machine.
//! Indices are unique and dense from zero, and small enough to fit in
//! one octet of an overlay address.

use vstd::prelude::*;

use crate::text::str_eq;

verus! {

/// A hostname that names no machine of the registry.
#[derive(Debug)]
pub struct UnknownMachine;

/// One reserved cluster machine, identified by its registry entry.
#[derive(Debug, Clone, Copy, PartialEq, Eq, Hash, PartialOrd, Ord, Structural)]
pub enum Machine {
    Alakazam01,
    Alakazam02,
    Alakazam03,
    Alakazam04,
    Alakazam05,
    Alakazam06,
    Alakazam07,
    Alakazam08,
    Bulbasaur1,
    Bulbasaur2,
    Bulbasaur3,
    Charmander1,
    Charmander2,
    Charmander3,
    Charmander4,
    Charmander5,
    Gengar1,
    Gengar2,
    Gengar3,
    Gengar4,
    Gengar5,
    Kadabra01,
    Kadabra02,
    Kadabra03,
    Kadabra04,
    Kadabra05,
    Kadabra06,
    Kadabra07,
    Kadabra08,
    Lugia1,
    Lugia2,
    Lugia3,
    Lugia4,
    Lugia5,
    Magikarp1,
    Moltres01,
    Moltres02,
    Moltres03,
    Moltres04,
    Moltres05,
    Moltres06,
    Moltres07,
    Moltres08,
    Moltres09,
    Moltres10,
    Oddish1,
    Psyduck1,
    Psyduck2,
    Psyduck3,
    Shelder1,
    Squirtle1,
    Squirtle2,
    Squirtle3,
    Squirtle4,
    Staryu1,
    Sudowoodo1,
    Vulpix1,
    Snorlax01,
    Snorlax02,
    Snorlax03,
}

impl Machine {
    /// The stable registry index of this machine.
    pub open spec fn spec_index(self) -> nat {
        match self {
            Machine::Alakazam01 => 0,
            Machine::Alakazam02 => 1,
            Machine::Alakazam03 => 2,
            Machine::Alakazam04 => 3,
            Machine::Alakazam05 => 4,
            Machine::Alakazam06 => 5,
            Machine::Alakazam07 => 6,
            Machine::Alakazam08 => 7,
            Machine::Bulbasaur1 => 8,
            Machine::Bulbasaur2 => 9,
            Machine::Bulbasaur3 => 10,
            Machine::Charmander1 => 11,
            Machine::Charmander2 => 12,
            Machine::Charmander3 => 13,
            Machine::Charmander4 => 14,
            Machine::Charmander5 => 15,
            Machine::Gengar1 => 16,
            Machine::Gengar2 => 17,
            Machine::Gengar3 => 18,
            Machine::Gengar4 => 19,
            Machine::Gengar5 => 20,
            Machine::Kadabra01 => 21,
            Machine::Kadabra02 => 22,
            Machine::Kadabra03 => 23,
            Machine::Kadabra04 => 24,
            Machine::Kadabra05 => 25,
            Machine::Kadabra06 => 26,
            Machine::Kadabra07 => 27,
            Machine::Kadabra08 => 28,
            Machine::Lugia1 => 29,
            Machine::Lugia2 => 30,
            Machine::Lugia3 => 31,
            Machine::Lugia4 => 32,
            Machine::Lugia5 => 33,
            Machine::Magikarp1 => 34,
            Machine::Moltres01 => 35,
            Machine::Moltres02 => 36,
            Machine::Moltres03 => 37,
            Machine::Moltres04 => 38,
            Machine::Moltres05 => 39,
            Machine::Moltres06 => 40,
            Machine::Moltres07 => 41,
            Machine::Moltres08 => 42,
            Machine::Moltres09 => 43,
            Machine::Moltres10 => 44,
            Machine::Oddish1 => 45,
            Machine::Psyduck1 => 46,
            Machine::Psyduck2 => 47,
            Machine::Psyduck3 => 48,
            Machine::Shelder1 => 49,
            Machine::Squirtle1 => 50,
            Machine::Squirtle2 => 51,
            Machine::Squirtle3 => 52,
            Machine::Squirtle4 => 53,
            Machine::Staryu1 => 54,
            Machine::Sudowoodo1 => 55,
            Machine::Vulpix1 => 56,
            Machine::Snorlax01 => 57,
            Machine::Snorlax02 => 58,
            Machine::Snorlax03 => 59,
        }
    }

    /// The hostname of this machine.
    pub open spec fn spec_hostname(self) -> Seq<char> {
        match self {
            Machine::Alakazam01 => "alakazam-01"@,
            Machine::Alakazam02 => "alakazam-02"@,
            Machine::Alakazam03 => "alakazam-03"@,
            Machine::Alakazam04 => "alakazam-04"@,
            Machine::Alakazam05 => "alakazam-05"@,
            Machine::Alakazam06 => "alakazam-06"@,
            Machine::Alakazam07 => "alakazam-07"@,
            Machine::Alakazam08 => "alakazam-08"@,
            Machine::Bulbasaur1 => "bulbasaur-1"@,
            Machine::Bulbasaur2 => "bulbasaur-2"@,
            Machine::Bulbasaur3 => "bulbasaur-3"@,
            Machine::Charmander1 => "charmander-1"@,
            Machine::Charmander2 => "charmander-2"@,
            Machine::Charmander3 => "charmander-3"@,
            Machine::Charmander4 => "charmander-4"@,
            Machine::Charmander5 => "charmander-5"@,
            Machine::Gengar1 => "gengar-1"@,
            Machine::Gengar2 => "gengar-2"@,
            Machine::Gengar3 => "gengar-3"@,
            Machine::Gengar4 => "gengar-4"@,
            Machine::Gengar5 => "gengar-5"@,
            Machine::Kadabra01 => "kadabra-01"@,
            Machine::Kadabra02 => "kadabra-02"@,
            Machine::Kadabra03 => "kadabra-03"@,
            Machine::Kadabra04 => "kadabra-04"@,
            Machine::Kadabra05 => "kadabra-05"@,
            Machine::Kadabra06 => "kadabra-06"@,
            Machine::Kadabra07 => "kadabra-07"@,
            Machine::Kadabra08 => "kadabra-08"@,
            Machine::Lugia1 => "lugia-1"@,
            Machine::Lugia2 => "lugia-2"@,
            Machine::Lugia3 => "lugia-3"@,
            Machine::Lugia4 => "lugia-4"@,
            Machine::Lugia5 => "lugia-5"@,
            Machine::Magikarp1 => "magikarp-1"@,
            Machine::Moltres01 => "moltres-01"@,
            Machine::Moltres02 => "moltres-02"@,
            Machine::Moltres03 => "moltres-03"@,
            Machine::Moltres04 => "moltres-04"@,
            Machine::Moltres05 => "moltres-05"@,
            Machine::Moltres06 => "moltres-06"@,
            Machine::Moltres07 => "moltres-07"@,
            Machine::Moltres08 => "moltres-08"@,
            Machine::Moltres09 => "moltres-09"@,
            Machine::Moltres10 => "moltres-10"@,
            Machine::Oddish1 => "oddish-1"@,
            Machine::Psyduck1 => "psyduck-1"@,
            Machine::Psyduck2 => "psyduck-2"@,
            Machine::Psyduck3 => "psyduck-3"@,
            Machine::Shelder1 => "shelder-1"@,
            Machine::Squirtle1 => "squirtle-1"@,
            Machine::Squirtle2 => "squirtle-2"@,
            Machine::Squirtle3 => "squirtle-3"@,
            Machine::Squirtle4 => "squirtle-4"@,
            Machine::Staryu1 => "staryu-1"@,
            Machine::Sudowoodo1 => "sudowoodo-1"@,
            Machine::Vulpix1 => "vulpix-1"@,
            Machine::Snorlax01 => "snorlax-01"@,
            Machine::Snorlax02 => "snorlax-02"@,
            Machine::Snorlax03 => "snorlax-03"@,
        }
    }

    /// The number of CPUs of this machine.
    pub open spec fn spec_cpus(self) -> nat {
        match self {
            Machine::Alakazam01 => 64,
            Machine::Alakazam02 => 64,
            Machine::Alakazam03 => 64,
            Machine::Alakazam04 => 64,
            Machine::Alakazam05 => 64,
            Machine::Alakazam06 => 64,
            Machine::Alakazam07 => 64,
            Machine::Alakazam08 => 64,
            Machine::Bulbasaur1 => 16,
            Machine::Bulbasaur2 => 16,
            Machine::Bulbasaur3 => 16,
            Machine::Charmander1 => 32,
            Machine::Charmander2 => 32,
            Machine::Charmander3 => 32,
            Machine::Charmander4 => 32,
            Machine::Charmander5 => 32,
            Machine::Gengar1 => 8,
            Machine::Gengar2 => 8,
            Machine::Gengar3 => 8,
            Machine::Gengar4 => 8,
            Machine::Gengar5 => 8,
            Machine::Kadabra01 => 64,
            Machine::Kadabra02 => 64,
            Machine::Kadabra03 => 64,
            Machine::Kadabra04 => 64,
            Machine::Kadabra05 => 64,
            Machine::Kadabra06 => 64,
            Machine::Kadabra07 => 64,
            Machine::Kadabra08 => 64,
            Machine::Lugia1 => 64,
            Machine::Lugia2 => 64,
            Machine::Lugia3 => 64,
            Machine::Lugia4 => 64,
            Machine::Lugia5 => 64,
            Machine::Magikarp1 => 16,
            Machine::Moltres01 => 64,
            Machine::Moltres02 => 64,
            Machine::Moltres03 => 64,
            Machine::Moltres04 => 64,
            Machine::Moltres05 => 64,
            Machine::Moltres06 => 64,
            Machine::Moltres07 => 64,
            Machine::Moltres08 => 64,
            Machine::Moltres09 => 64,
            Machine::Moltres10 => 64,
            Machine::Oddish1 => 4,
            Machine::Psyduck1 => 8,
            Machine::Psyduck2 => 8,
            Machine::Psyduck3 => 8,
            Machine::Shelder1 => 64,
            Machine::Squirtle1 => 24,
            Machine::Squirtle2 => 24,
            Machine::Squirtle3 => 24,
            Machine::Squirtle4 => 24,
            Machine::Staryu1 => 12,
            Machine::Sudowoodo1 => 16,
            Machine::Vulpix1 => 112,
            Machine::Snorlax01 => 64,
            Machine::Snorlax02 => 64,
            Machine::Snorlax03 => 64,
        }
    }

    /// Whether the registry knows the outbound interface of this machine.
    pub open spec fn has_interface(self) -> bool {
        match self {
            Machine::Alakazam01 => true,
            Machine::Alakazam02 => true,
            Machine::Alakazam03 => true,
            Machine::Alakazam04 => true,
            Machine::Alakazam05 => true,
            Machine::Alakazam06 => true,
            Machine::Alakazam07 => true,
            Machine::Alakazam08 => true,
            Machine::Bulbasaur1 => true,
            Machine::Bulbasaur2 => true,
            Machine::Bulbasaur3 => true,
            Machine::Charmander1 => true,
            Machine::Charmander2 => true,
            Machine::Charmander3 => true,
            Machine::Charmander4 => true,
            Machine::Charmander5 => true,
            Machine::Gengar1 => true,
            Machine::Gengar2 => true,
            Machine::Gengar3 => true,
            Machine::Gengar4 => true,
            Machine::Gengar5 => true,
            Machine::Kadabra01 => true,
            Machine::Kadabra02 => true,
            Machine::Kadabra03 => true,
            Machine::Kadabra04 => true,
            Machine::Kadabra05 => true,
            Machine::Kadabra06 => true,
            Machine::Kadabra07 => true,
            Machine::Kadabra08 => true,
            Machine::Lugia1 => true,
            Machine::Lugia2 => true,
            Machine::Lugia3 => true,
            Machine::Lugia4 => true,
            Machine::Lugia5 => true,
            Machine::Magikarp1 => false,
            Machine::Moltres01 => true,
            Machine::Moltres02 => true,
            Machine::Moltres03 => true,
            Machine::Moltres04 => true,
            Machine::Moltres05 => true,
            Machine::Moltres06 => true,
            Machine::Moltres07 => true,
            Machine::Moltres08 => true,
            Machine::Moltres09 => true,
            Machine::Moltres10 => true,
            Machine::Oddish1 => true,
            Machine::Psyduck1 => true,
            Machine::Psyduck2 => true,
            Machine::Psyduck3 => true,
            Machine::Shelder1 => false,
            Machine::Squirtle1 => true,
            Machine::Squirtle2 => true,
            Machine::Squirtle3 => true,
            Machine::Squirtle4 => true,
            Machine::Staryu1 => false,
            Machine::Sudowoodo1 => false,
            Machine::Vulpix1 => false,
            Machine::Snorlax01 => true,
            Machine::Snorlax02 => true,
            Machine::Snorlax03 => true,
        }
    }

    /// The outbound interface of this machine, where the registry knows it.
    pub open spec fn spec_interface(self) -> Seq<char> {
        match self {
            Machine::Alakazam01 => "bond0"@,
            Machine::Alakazam02 => "bond0"@,
            Machine::Alakazam03 => "bond0"@,
            Machine::Alakazam04 => "bond0"@,
            Machine::Alakazam05 => "bond0"@,
            Machine::Alakazam06 => "bond0"@,
            Machine::Alakazam07 => "bond0"@,
            Machine::Alakazam08 => "bond0"@,
            Machine::Bulbasaur1 => "bond0"@,
            Machine::Bulbasaur2 => "bond0"@,
            Machine::Bulbasaur3 => "bond0"@,
            Machine::Charmander1 => "bond0"@,
            Machine::Charmander2 => "bond0"@,
            Machine::Charmander3 => "bond0"@,
            Machine::Charmander4 => "bond0"@,
            Machine::Charmander5 => "bond0"@,
            Machine::Gengar1 => "bond0"@,
            Machine::Gengar2 => "bond0"@,
            Machine::Gengar3 => "bond0"@,
            Machine::Gengar4 => "bond0"@,
            Machine::Gengar5 => "bond0"@,
            Machine::Kadabra01 => "bond0"@,
            Machine::Kadabra02 => "bond0"@,
            Machine::Kadabra03 => "bond0"@,
            Machine::Kadabra04 => "bond0"@,
            Machine::Kadabra05 => "bond0"@,
            Machine::Kadabra06 => "bond0"@,
            Machine::Kadabra07 => "bond0"@,
            Machine::Kadabra08 => "bond0"@,
            Machine::Lugia1 => "bond0"@,
            Machine::Lugia2 => "bond0"@,
            Machine::Lugia3 => "bond0"@,
            Machine::Lugia4 => "bond0"@,
            Machine::Lugia5 => "bond0"@,
            Machine::Magikarp1 => Seq::<char>::empty(),
            Machine::Moltres01 => "bond0"@,
            Machine::Moltres02 => "bond0"@,
            Machine::Moltres03 => "bond0"@,
            Machine::Moltres04 => "bond0"@,
            Machine::Moltres05 => "bond0"@,
            Machine::Moltres06 => "bond0"@,
            Machine::Moltres07 => "bond0"@,
            Machine::Moltres08 => "bond0"@,
            Machine::Moltres09 => "bond0"@,
            Machine::Moltres10 => "bond0"@,
            Machine::Oddish1 => "bond0"@,
            Machine::Psyduck1 => "bond0"@,
            Machine::Psyduck2 => "bond0"@,
            Machine::Psyduck3 => "bond0"@,
            Machine::Shelder1 => Seq::<char>::empty(),
            Machine::Squirtle1 => "bond0"@,
            Machine::Squirtle2 => "bond0"@,
            Machine::Squirtle3 => "bond0"@,
            Machine::Squirtle4 => "bond0"@,
            Machine::Staryu1 => Seq::<char>::empty(),
            Machine::Sudowoodo1 => Seq::<char>::empty(),
            Machine::Vulpix1 => Seq::<char>::empty(),
            Machine::Snorlax01 => "bond0"@,
            Machine::Snorlax02 => "bond0"@,
            Machine::Snorlax03 => "bond0"@,
        }
    }

    /// The machine whose registry index is `i`, if any.
    pub open spec fn spec_from_index(i: nat) -> Option<Machine> {
        if i == 0 {
            Some(Machine::Alakazam01)
        } else if i == 1 {
            Some(Machine::Alakazam02)
        } else if i == 2 {
            Some(Machine::Alakazam03)
        } else if i == 3 {
            Some(Machine::Alakazam04)
        } else if i == 4 {
            Some(Machine::Alakazam05)
        } else if i == 5 {
            Some(Machine::Alakazam06)
        } else if i == 6 {
            Some(Machine::Alakazam07)
        } else if i == 7 {
            Some(Machine::Alakazam08)
        } else if i == 8 {
            Some(Machine::Bulbasaur1)
        } else if i == 9 {
            Some(Machine::Bulbasaur2)
        } else if i == 10 {
            Some(Machine::Bulbasaur3)
        } else if i == 11 {
            Some(Machine::Charmander1)
        } else if i == 12 {
            Some(Machine::Charmander2)
        } else if i == 13 {
            Some(Machine::Charmander3)
        } else if i == 14 {
            Some(Machine::Charmander4)
        } else if i == 15 {
            Some(Machine::Charmander5)
        } else if i == 16 {
            Some(Machine::Gengar1)
        } else if i == 17 {
            Some(Machine::Gengar2)
        } else if i == 18 {
            Some(Machine::Gengar3)
        } else if i == 19 {
            Some(Machine::Gengar4)
        } else if i == 20 {
            Some(Machine::Gengar5)
        } else if i == 21 {
            Some(Machine::Kadabra01)
        } else if i == 22 {
            Some(Machine::Kadabra02)
        } else if i == 23 {
            Some(Machine::Kadabra03)
        } else if i == 24 {
            Some(Machine::Kadabra04)
        } else if i == 25 {
            Some(Machine::Kadabra05)
        } else if i == 26 {
            Some(Machine::Kadabra06)
        } else if i == 27 {
            Some(Machine::Kadabra07)
        } else if i == 28 {
            Some(Machine::Kadabra08)
        } else if i == 29 {
            Some(Machine::Lugia1)
        } else if i == 30 {
            Some(Machine::Lugia2)
        } else if i == 31 {
            Some(Machine::Lugia3)
        } else if i == 32 {
            Some(Machine::Lugia4)
        } else if i == 33 {
            Some(Machine::Lugia5)
        } else if i == 34 {
            Some(Machine::Magikarp1)
        } else if i == 35 {
            Some(Machine::Moltres01)
        } else if i == 36 {
            Some(Machine::Moltres02)
        } else if i == 37 {
            Some(Machine::Moltres03)
        } else if i == 38 {
            Some(Machine::Moltres04)
        } else if i == 39 {
            Some(Machine::Moltres05)
        } else if i == 40 {
            Some(Machine::Moltres06)
        } else if i == 41 {
            Some(Machine::Moltres07)
        } else if i == 42 {
            Some(Machine::Moltres08)
        } else if i == 43 {
            Some(Machine::Moltres09)
        } else if i == 44 {
            Some(Machine::Moltres10)
        } else if i == 45 {
            Some(Machine::Oddish1)
        } else if i == 46 {
            Some(Machine::Psyduck1)
        } else if i == 47 {
            Some(Machine::Psyduck2)
        } else if i == 48 {
            Some(Machine::Psyduck3)
        } else if i == 49 {
            Some(Machine::Shelder1)
        } else if i == 50 {
            Some(Machine::Squirtle1)
        } else if i == 51 {
            Some(Machine::Squirtle2)
        } else if i == 52 {
            Some(Machine::Squirtle3)
        } else if i == 53 {
            Some(Machine::Squirtle4)
        } else if i == 54 {
            Some(Machine::Staryu1)
        } else if i == 55 {
            Some(Machine::Sudowoodo1)
        } else if i == 56 {
            Some(Machine::Vulpix1)
        } else if i == 57 {
            Some(Machine::Snorlax01)
        } else if i == 58 {
            Some(Machine::Snorlax02)
        } else if i == 59 {
            Some(Machine::Snorlax03)
        } else {
            None
        }
    }

    /// The machine whose hostname is `s`, if any.
    pub open spec fn spec_from_hostname(s: Seq<char>) -> Option<Machine> {
        if s == "alakazam-01"@ {
            Some(Machine::Alakazam01)
        } else if s == "alakazam-02"@ {
            Some(Machine::Alakazam02)
        } else if s == "alakazam-03"@ {
            Some(Machine::Alakazam03)
        } else if s == "alakazam-04"@ {
            Some(Machine::Alakazam04)
        } else if s == "alakazam-05"@ {
            Some(Machine::Alakazam05)
        } else if s == "alakazam-06"@ {
            Some(Machine::Alakazam06)
        } else if s == "alakazam-07"@ {
            Some(Machine::Alakazam07)
        } else if s == "alakazam-08"@ {
            Some(Machine::Alakazam08)
        } else if s == "bulbasaur-1"@ {
            Some(Machine::Bulbasaur1)
        } else if s == "bulbasaur-2"@ {
            Some(Machine::Bulbasaur2)
        } else if s == "bulbasaur-3"@ {
            Some(Machine::Bulbasaur3)
        } else if s == "charmander-1"@ {
            Some(Machine::Charmander1)
        } else if s == "charmander-2"@ {
            Some(Machine::Charmander2)
        } else if s == "charmander-3"@ {
            Some(Machine::Charmander3)
        } else if s == "charmander-4"@ {
            Some(Machine::Charmander4)
        } else if s == "charmander-5"@ {
            Some(Machine::Charmander5)
        } else if s == "gengar-1"@ {
            Some(Machine::Gengar1)
        } else if s == "gengar-2"@ {
            Some(Machine::Gengar2)
        } else if s == "gengar-3"@ {
            Some(Machine::Gengar3)
        } else if s == "gengar-4"@ {
            Some(Machine::Gengar4)
        } else if s == "gengar-5"@ {
            Some(Machine::Gengar5)
        } else if s == "kadabra-01"@ {
            Some(Machine::Kadabra01)
        } else if s == "kadabra-02"@ {
            Some(Machine::Kadabra02)
        } else if s == "kadabra-03"@ {
            Some(Machine::Kadabra03)
        } else if s == "kadabra-04"@ {
            Some(Machine::Kadabra04)
        } else if s == "kadabra-05"@ {
            Some(Machine::Kadabra05)
        } else if s == "kadabra-06"@ {
            Some(Machine::Kadabra06)
        } else if s == "kadabra-07"@ {
            Some(Machine::Kadabra07)
        } else if s == "kadabra-08"@ {
            Some(Machine::Kadabra08)
        } else if s == "lugia-1"@ {
            Some(Machine::Lugia1)
        } else if s == "lugia-2"@ {
            Some(Machine::Lugia2)
        } else if s == "lugia-3"@ {
            Some(Machine::Lugia3)
        } else if s == "lugia-4"@ {
            Some(Machine::Lugia4)
        } else if s == "lugia-5"@ {
            Some(Machine::Lugia5)
        } else if s == "magikarp-1"@ {
            Some(Machine::Magikarp1)
        } else if s == "moltres-01"@ {
            Some(Machine::Moltres01)
        } else if s == "moltres-02"@ {
            Some(Machine::Moltres02)
        } else if s == "moltres-03"@ {
            Some(Machine::Moltres03)
        } else if s == "moltres-04"@ {
            Some(Machine::Moltres04)
        } else if s == "moltres-05"@ {
            Some(Machine::Moltres05)
        } else if s == "moltres-06"@ {
            Some(Machine::Moltres06)
        } else if s == "moltres-07"@ {
            Some(Machine::Moltres07)
        } else if s == "moltres-08"@ {
            Some(Machine::Moltres08)
        } else if s == "moltres-09"@ {
            Some(Machine::Moltres09)
        } else if s == "moltres-10"@ {
            Some(Machine::Moltres10)
        } else if s == "oddish-1"@ {
            Some(Machine::Oddish1)
        } else if s == "psyduck-1"@ {
            Some(Machine::Psyduck1)
        } else if s == "psyduck-2"@ {
            Some(Machine::Psyduck2)
        } else if s == "psyduck-3"@ {
            Some(Machine::Psyduck3)
        } else if s == "shelder-1"@ {
            Some(Machine::Shelder1)
        } else if s == "squirtle-1"@ {
            Some(Machine::Squirtle1)
        } else if s == "squirtle-2"@ {
            Some(Machine::Squirtle2)
        } else if s == "squirtle-3"@ {
            Some(Machine::Squirtle3)
        } else if s == "squirtle-4"@ {
            Some(Machine::Squirtle4)
        } else if s == "staryu-1"@ {
            Some(Machine::Staryu1)
        } else if s == "sudowoodo-1"@ {
            Some(Machine::Sudowoodo1)
        } else if s == "vulpix-1"@ {
            Some(Machine::Vulpix1)
        } else if s == "snorlax-01"@ {
            Some(Machine::Snorlax01)
        } else if s == "snorlax-02"@ {
            Some(Machine::Snorlax02)
        } else if s == "snorlax-03"@ {
            Some(Machine::Snorlax03)
        } else {
            None
        }
    }

    /// The stable registry index, embedded as the second octet of every
    /// overlay address the machine owns.
    pub fn index(&self) -> (r: usize)
        ensures
            r == self.spec_index(),
    {
        match self {
            Machine::Alakazam01 => 0,
            Machine::Alakazam02 => 1,
            Machine::Alakazam03 => 2,
            Machine::Alakazam04 => 3,
            Machine::Alakazam05 => 4,
            Machine::Alakazam06 => 5,
            Machine::Alakazam07 => 6,
            Machine::Alakazam08 => 7,
            Machine::Bulbasaur1 => 8,
            Machine::Bulbasaur2 => 9,
            Machine::Bulbasaur3 => 10,
            Machine::Charmander1 => 11,
            Machine::Charmander2 => 12,
            Machine::Charmander3 => 13,
            Machine::Charmander4 => 14,
            Machine::Charmander5 => 15,
            Machine::Gengar1 => 16,
            Machine::Gengar2 => 17,
            Machine::Gengar3 => 18,
            Machine::Gengar4 => 19,
            Machine::Gengar5 => 20,
            Machine::Kadabra01 => 21,
            Machine::Kadabra02 => 22,
            Machine::Kadabra03 => 23,
            Machine::Kadabra04 => 24,
            Machine::Kadabra05 => 25,
            Machine::Kadabra06 => 26,
            Machine::Kadabra07 => 27,
            Machine::Kadabra08 => 28,
            Machine::Lugia1 => 29,
            Machine::Lugia2 => 30,
            Machine::Lugia3 => 31,
            Machine::Lugia4 => 32,
            Machine::Lugia5 => 33,
            Machine::Magikarp1 => 34,
            Machine::Moltres01 => 35,
            Machine::Moltres02 => 36,
            Machine::Moltres03 => 37,
            Machine::Moltres04 => 38,
            Machine::Moltres05 => 39,
            Machine::Moltres06 => 40,
            Machine::Moltres07 => 41,
            Machine::Moltres08 => 42,
            Machine::Moltres09 => 43,
            Machine::Moltres10 => 44,
            Machine::Oddish1 => 45,
            Machine::Psyduck1 => 46,
            Machine::Psyduck2 => 47,
            Machine::Psyduck3 => 48,
            Machine::Shelder1 => 49,
            Machine::Squirtle1 => 50,
            Machine::Squirtle2 => 51,
            Machine::Squirtle3 => 52,
            Machine::Squirtle4 => 53,
            Machine::Staryu1 => 54,
            Machine::Sudowoodo1 => 55,
            Machine::Vulpix1 => 56,
            Machine::Snorlax01 => 57,
            Machine::Snorlax02 => 58,
            Machine::Snorlax03 => 59,
        }
    }

    /// The hostname used to reach this machine over ssh.
    pub fn hostname(&self) -> (r: &'static str)
        ensures
            r@ == self.spec_hostname(),
    {
        match self {
            Machine::Alakazam01 => "alakazam-01",
            Machine::Alakazam02 => "alakazam-02",
            Machine::Alakazam03 => "alakazam-03",
            Machine::Alakazam04 => "alakazam-04",
            Machine::Alakazam05 => "alakazam-05",
            Machine::Alakazam06 => "alakazam-06",
            Machine::Alakazam07 => "alakazam-07",
            Machine::Alakazam08 => "alakazam-08",
            Machine::Bulbasaur1 => "bulbasaur-1",
            Machine::Bulbasaur2 => "bulbasaur-2",
            Machine::Bulbasaur3 => "bulbasaur-3",
            Machine::Charmander1 => "charmander-1",
            Machine::Charmander2 => "charmander-2",
            Machine::Charmander3 => "charmander-3",
            Machine::Charmander4 => "charmander-4",
            Machine::Charmander5 => "charmander-5",
            Machine::Gengar1 => "gengar-1",
            Machine::Gengar2 => "gengar-2",
            Machine::Gengar3 => "gengar-3",
            Machine::Gengar4 => "gengar-4",
            Machine::Gengar5 => "gengar-5",
            Machine::Kadabra01 => "kadabra-01",
            Machine::Kadabra02 => "kadabra-02",
            Machine::Kadabra03 => "kadabra-03",
            Machine::Kadabra04 => "kadabra-04",
            Machine::Kadabra05 => "kadabra-05",
            Machine::Kadabra06 => "kadabra-06",
            Machine::Kadabra07 => "kadabra-07",
            Machine::Kadabra08 => "kadabra-08",
            Machine::Lugia1 => "lugia-1",
            Machine::Lugia2 => "lugia-2",
            Machine::Lugia3 => "lugia-3",
            Machine::Lugia4 => "lugia-4",
            Machine::Lugia5 => "lugia-5",
            Machine::Magikarp1 => "magikarp-1",
            Machine::Moltres01 => "moltres-01",
            Machine::Moltres02 => "moltres-02",
            Machine::Moltres03 => "moltres-03",
            Machine::Moltres04 => "moltres-04",
            Machine::Moltres05 => "moltres-05",
            Machine::Moltres06 => "moltres-06",
            Machine::Moltres07 => "moltres-07",
            Machine::Moltres08 => "moltres-08",
            Machine::Moltres09 => "moltres-09",
            Machine::Moltres10 => "moltres-10",
            Machine::Oddish1 => "oddish-1",
            Machine::Psyduck1 => "psyduck-1",
            Machine::Psyduck2 => "psyduck-2",
            Machine::Psyduck3 => "psyduck-3",
            Machine::Shelder1 => "shelder-1",
            Machine::Squirtle1 => "squirtle-1",
            Machine::Squirtle2 => "squirtle-2",
            Machine::Squirtle3 => "squirtle-3",
            Machine::Squirtle4 => "squirtle-4",
            Machine::Staryu1 => "staryu-1",
            Machine::Sudowoodo1 => "sudowoodo-1",
            Machine::Vulpix1 => "vulpix-1",
            Machine::Snorlax01 => "snorlax-01",
            Machine::Snorlax02 => "snorlax-02",
            Machine::Snorlax03 => "snorlax-03",
        }
    }

    /// The number of CPUs the scheduler reports for this machine.
    pub fn cpus(&self) -> (r: u32)
        ensures
            r == self.spec_cpus(),
    {
        match self {
            Machine::Alakazam01 => 64,
            Machine::Alakazam02 => 64,
            Machine::Alakazam03 => 64,
            Machine::Alakazam04 => 64,
            Machine::Alakazam05 => 64,
            Machine::Alakazam06 => 64,
            Machine::Alakazam07 => 64,
            Machine::Alakazam08 => 64,
            Machine::Bulbasaur1 => 16,
            Machine::Bulbasaur2 => 16,
            Machine::Bulbasaur3 => 16,
            Machine::Charmander1 => 32,
            Machine::Charmander2 => 32,
            Machine::Charmander3 => 32,
            Machine::Charmander4 => 32,
            Machine::Charmander5 => 32,
            Machine::Gengar1 => 8,
            Machine::Gengar2 => 8,
            Machine::Gengar3 => 8,
            Machine::Gengar4 => 8,
            Machine::Gengar5 => 8,
            Machine::Kadabra01 => 64,
            Machine::Kadabra02 => 64,
            Machine::Kadabra03 => 64,
            Machine::Kadabra04 => 64,
            Machine::Kadabra05 => 64,
            Machine::Kadabra06 => 64,
            Machine::Kadabra07 => 64,
            Machine::Kadabra08 => 64,
            Machine::Lugia1 => 64,
            Machine::Lugia2 => 64,
            Machine::Lugia3 => 64,
            Machine::Lugia4 => 64,
            Machine::Lugia5 => 64,
            Machine::Magikarp1 => 16,
            Machine::Moltres01 => 64,
            Machine::Moltres02 => 64,
            Machine::Moltres03 => 64,
            Machine::Moltres04 => 64,
            Machine::Moltres05 => 64,
            Machine::Moltres06 => 64,
            Machine::Moltres07 => 64,
            Machine::Moltres08 => 64,
            Machine::Moltres09 => 64,
            Machine::Moltres10 => 64,
            Machine::Oddish1 => 4,
            Machine::Psyduck1 => 8,
            Machine::Psyduck2 => 8,
            Machine::Psyduck3 => 8,
            Machine::Shelder1 => 64,
            Machine::Squirtle1 => 24,
            Machine::Squirtle2 => 24,
            Machine::Squirtle3 => 24,
            Machine::Squirtle4 => 24,
            Machine::Staryu1 => 12,
            Machine::Sudowoodo1 => 16,
            Machine::Vulpix1 => 112,
            Machine::Snorlax01 => 64,
            Machine::Snorlax02 => 64,
            Machine::Snorlax03 => 64,
        }
    }

    /// Whether the registry knows this machine's outbound interface.
    pub fn interface_known(&self) -> (r: bool)
        ensures
            r == self.has_interface(),
    {
        match self {
            Machine::Magikarp1 => false,
            Machine::Shelder1 => false,
            Machine::Staryu1 => false,
            Machine::Sudowoodo1 => false,
            Machine::Vulpix1 => false,
            _ => true,
        }
    }

    /// The outbound interface that overlay addresses are installed on.
    pub fn interface(&self) -> (r: &'static str)
        requires
            self.has_interface(),
        ensures
            r@ == self.spec_interface(),
    {
        match self {
            Machine::Alakazam01 => "bond0",
            Machine::Alakazam02 => "bond0",
            Machine::Alakazam03 => "bond0",
            Machine::Alakazam04 => "bond0",
            Machine::Alakazam05 => "bond0",
            Machine::Alakazam06 => "bond0",
            Machine::Alakazam07 => "bond0",
            Machine::Alakazam08 => "bond0",
            Machine::Bulbasaur1 => "bond0",
            Machine::Bulbasaur2 => "bond0",
            Machine::Bulbasaur3 => "bond0",
            Machine::Charmander1 => "bond0",
            Machine::Charmander2 => "bond0",
            Machine::Charmander3 => "bond0",
            Machine::Charmander4 => "bond0",
            Machine::Charmander5 => "bond0",
            Machine::Gengar1 => "bond0",
            Machine::Gengar2 => "bond0",
            Machine::Gengar3 => "bond0",
            Machine::Gengar4 => "bond0",
            Machine::Gengar5 => "bond0",
            Machine::Kadabra01 => "bond0",
            Machine::Kadabra02 => "bond0",
            Machine::Kadabra03 => "bond0",
            Machine::Kadabra04 => "bond0",
            Machine::Kadabra05 => "bond0",
            Machine::Kadabra06 => "bond0",
            Machine::Kadabra07 => "bond0",
            Machine::Kadabra08 => "bond0",
            Machine::Lugia1 => "bond0",
            Machine::Lugia2 => "bond0",
            Machine::Lugia3 => "bond0",
            Machine::Lugia4 => "bond0",
            Machine::Lugia5 => "bond0",
            Machine::Magikarp1 => unreached(),
            Machine::Moltres01 => "bond0",
            Machine::Moltres02 => "bond0",
            Machine::Moltres03 => "bond0",
            Machine::Moltres04 => "bond0",
            Machine::Moltres05 => "bond0",
            Machine::Moltres06 => "bond0",
            Machine::Moltres07 => "bond0",
            Machine::Moltres08 => "bond0",
            Machine::Moltres09 => "bond0",
            Machine::Moltres10 => "bond0",
            Machine::Oddish1 => "bond0",
            Machine::Psyduck1 => "bond0",
            Machine::Psyduck2 => "bond0",
            Machine::Psyduck3 => "bond0",
            Machine::Shelder1 => unreached(),
            Machine::Squirtle1 => "bond0",
            Machine::Squirtle2 => "bond0",
            Machine::Squirtle3 => "bond0",
            Machine::Squirtle4 => "bond0",
            Machine::Staryu1 => unreached(),
            Machine::Sudowoodo1 => unreached(),
            Machine::Vulpix1 => unreached(),
            Machine::Snorlax01 => "bond0",
            Machine::Snorlax02 => "bond0",
            Machine::Snorlax03 => "bond0",
        }
    }

    /// Looks a machine up by hostname.
    pub fn from_hostname(hostname: &str) -> (r: Option<Machine>)
        ensures
            r == Machine::spec_from_hostname(hostname@),
    {
        if str_eq(hostname, "alakazam-01") {
            Some(Machine::Alakazam01)
        } else if str_eq(hostname, "alakazam-02") {
            Some(Machine::Alakazam02)
        } else if str_eq(hostname, "alakazam-03") {
            Some(Machine::Alakazam03)
        } else if str_eq(hostname, "alakazam-04") {
            Some(Machine::Alakazam04)
        } else if str_eq(hostname, "alakazam-05") {
            Some(Machine::Alakazam05)
        } else if str_eq(hostname, "alakazam-06") {
            Some(Machine::Alakazam06)
        } else if str_eq(hostname, "alakazam-07") {
            Some(Machine::Alakazam07)
        } else if str_eq(hostname, "alakazam-08") {
            Some(Machine::Alakazam08)
        } else if str_eq(hostname, "bulbasaur-1") {
            Some(Machine::Bulbasaur1)
        } else if str_eq(hostname, "bulbasaur-2") {
            Some(Machine::Bulbasaur2)
        } else if str_eq(hostname, "bulbasaur-3") {
            Some(Machine::Bulbasaur3)
        } else if str_eq(hostname, "charmander-1") {
            Some(Machine::Charmander1)
        } else if str_eq(hostname, "charmander-2") {
            Some(Machine::Charmander2)
        } else if str_eq(hostname, "charmander-3") {
            Some(Machine::Charmander3)
        } else if str_eq(hostname, "charmander-4") {
            Some(Machine::Charmander4)
        } else if str_eq(hostname, "charmander-5") {
            Some(Machine::Charmander5)
        } else if str_eq(hostname, "gengar-1") {
            Some(Machine::Gengar1)
        } else if str_eq(hostname, "gengar-2") {
            Some(Machine::Gengar2)
        } else if str_eq(hostname, "gengar-3") {
            Some(Machine::Gengar3)
        } else if str_eq(hostname, "gengar-4") {
            Some(Machine::Gengar4)
        } else if str_eq(hostname, "gengar-5") {
            Some(Machine::Gengar5)
        } else if str_eq(hostname, "kadabra-01") {
            Some(Machine::Kadabra01)
        } else if str_eq(hostname, "kadabra-02") {
            Some(Machine::Kadabra02)
        } else if str_eq(hostname, "kadabra-03") {
            Some(Machine::Kadabra03)
        } else if str_eq(hostname, "kadabra-04") {
            Some(Machine::Kadabra04)
        } else if str_eq(hostname, "kadabra-05") {
            Some(Machine::Kadabra05)
        } else if str_eq(hostname, "kadabra-06") {
            Some(Machine::Kadabra06)
        } else if str_eq(hostname, "kadabra-07") {
            Some(Machine::Kadabra07)
        } else if str_eq(hostname, "kadabra-08") {
            Some(Machine::Kadabra08)
        } else if str_eq(hostname, "lugia-1") {
            Some(Machine::Lugia1)
        } else if str_eq(hostname, "lugia-2") {
            Some(Machine::Lugia2)
        } else if str_eq(hostname, "lugia-3") {
            Some(Machine::Lugia3)
        } else if str_eq(hostname, "lugia-4") {
            Some(Machine::Lugia4)
        } else if str_eq(hostname, "lugia-5") {
            Some(Machine::Lugia5)
        } else if str_eq(hostname, "magikarp-1") {
            Some(Machine::Magikarp1)
        } else if str_eq(hostname, "moltres-01") {
            Some(Machine::Moltres01)
        } else if str_eq(hostname, "moltres-02") {
            Some(Machine::Moltres02)
        } else if str_eq(hostname, "moltres-03") {
            Some(Machine::Moltres03)
        } else if str_eq(hostname, "moltres-04") {
            Some(Machine::Moltres04)
        } else if str_eq(hostname, "moltres-05") {
            Some(Machine::Moltres05)
        } else if str_eq(hostname, "moltres-06") {
            Some(Machine::Moltres06)
        } else if str_eq(hostname, "moltres-07") {
            Some(Machine::Moltres07)
        } else if str_eq(hostname, "moltres-08") {
            Some(Machine::Moltres08)
        } else if str_eq(hostname, "moltres-09") {
            Some(Machine::Moltres09)
        } else if str_eq(hostname, "moltres-10") {
            Some(Machine::Moltres10)
        } else if str_eq(hostname, "oddish-1") {
            Some(Machine::Oddish1)
        } else if str_eq(hostname, "psyduck-1") {
            Some(Machine::Psyduck1)
        } else if str_eq(hostname, "psyduck-2") {
            Some(Machine::Psyduck2)
        } else if str_eq(hostname, "psyduck-3") {
            Some(Machine::Psyduck3)
        } else if str_eq(hostname, "shelder-1") {
            Some(Machine::Shelder1)
        } else if str_eq(hostname, "squirtle-1") {
            Some(Machine::Squirtle1)
        } else if str_eq(hostname, "squirtle-2") {
            Some(Machine::Squirtle2)
        } else if str_eq(hostname, "squirtle-3") {
            Some(Machine::Squirtle3)
        } else if str_eq(hostname, "squirtle-4") {
            Some(Machine::Squirtle4)
        } else if str_eq(hostname, "staryu-1") {
            Some(Machine::Staryu1)
        } else if str_eq(hostname, "sudowoodo-1") {
            Some(Machine::Sudowoodo1)
        } else if str_eq(hostname, "vulpix-1") {
            Some(Machine::Vulpix1)
        } else if str_eq(hostname, "snorlax-01") {
            Some(Machine::Snorlax01)
        } else if str_eq(hostname, "snorlax-02") {
            Some(Machine::Snorlax02)
        } else if str_eq(hostname, "snorlax-03") {
            Some(Machine::Snorlax03)
        } else {
            None
        }
    }

    /// Looks a machine up by registry index.
    pub fn from_index(index: usize) -> (r: Option<Machine>)
        ensures
            r == Machine::spec_from_index(index as nat),
    {
        if index == 0 {
            Some(Machine::Alakazam01)
        } else if index == 1 {
            Some(Machine::Alakazam02)
        } else if index == 2 {
            Some(Machine::Alakazam03)
        } else if index == 3 {
            Some(Machine::Alakazam04)
        } else if index == 4 {
            Some(Machine::Alakazam05)
        } else if index == 5 {
            Some(Machine::Alakazam06)
        } else if index == 6 {
            Some(Machine::Alakazam07)
        } else if index == 7 {
            Some(Machine::Alakazam08)
        } else if index == 8 {
            Some(Machine::Bulbasaur1)
        } else if index == 9 {
            Some(Machine::Bulbasaur2)
        } else if index == 10 {
            Some(Machine::Bulbasaur3)
        } else if index == 11 {
            Some(Machine::Charmander1)
        } else if index == 12 {
            Some(Machine::Charmander2)
        } else if index == 13 {
            Some(Machine::Charmander3)
        } else if index == 14 {
            Some(Machine::Charmander4)
        } else if index == 15 {
            Some(Machine::Charmander5)
        } else if index == 16 {
            Some(Machine::Gengar1)
        } else if index == 17 {
            Some(Machine::Gengar2)
        } else if index == 18 {
            Some(Machine::Gengar3)
        } else if index == 19 {
            Some(Machine::Gengar4)
        } else if index == 20 {
            Some(Machine::Gengar5)
        } else if index == 21 {
            Some(Machine::Kadabra01)
        } else if index == 22 {
            Some(Machine::Kadabra02)
        } else if index == 23 {
            Some(Machine::Kadabra03)
        } else if index == 24 {
            Some(Machine::Kadabra04)
        } else if index == 25 {
            Some(Machine::Kadabra05)
        } else if index == 26 {
            Some(Machine::Kadabra06)
        } else if index == 27 {
            Some(Machine::Kadabra07)
        } else if index == 28 {
            Some(Machine::Kadabra08)
        } else if index == 29 {
            Some(Machine::Lugia1)
        } else if index == 30 {
            Some(Machine::Lugia2)
        } else if index == 31 {
            Some(Machine::Lugia3)
        } else if index == 32 {
            Some(Machine::Lugia4)
        } else if index == 33 {
            Some(Machine::Lugia5)
        } else if index == 34 {
            Some(Machine::Magikarp1)
        } else if index == 35 {
            Some(Machine::Moltres01)
        } else if index == 36 {
            Some(Machine::Moltres02)
        } else if index == 37 {
            Some(Machine::Moltres03)
        } else if index == 38 {
            Some(Machine::Moltres04)
        } else if index == 39 {
            Some(Machine::Moltres05)
        } else if index == 40 {
            Some(Machine::Moltres06)
        } else if index == 41 {
            Some(Machine::Moltres07)
        } else if index == 42 {
            Some(Machine::Moltres08)
        } else if index == 43 {
            Some(Machine::Moltres09)
        } else if index == 44 {
            Some(Machine::Moltres10)
        } else if index == 45 {
            Some(Machine::Oddish1)
        } else if index == 46 {
            Some(Machine::Psyduck1)
        } else if index == 47 {
            Some(Machine::Psyduck2)
        } else if index == 48 {
            Some(Machine::Psyduck3)
        } else if index == 49 {
            Some(Machine::Shelder1)
        } else if index == 50 {
            Some(Machine::Squirtle1)
        } else if index == 51 {
            Some(Machine::Squirtle2)
        } else if index == 52 {
            Some(Machine::Squirtle3)
        } else if index == 53 {
            Some(Machine::Squirtle4)
        } else if index == 54 {
            Some(Machine::Staryu1)
        } else if index == 55 {
            Some(Machine::Sudowoodo1)
        } else if index == 56 {
            Some(Machine::Vulpix1)
        } else if index == 57 {
            Some(Machine::Snorlax01)
        } else if index == 58 {
            Some(Machine::Snorlax02)
        } else if index == 59 {
            Some(Machine::Snorlax03)
        } else {
            None
        }
    }
}

/// Every registry index fits well below one octet, as overlay addressing
/// requires.
pub proof fn lemma_machine_index_bound(m: Machine)
    ensures
        m.spec_index() <= 59,
{
}

/// Looking a machine's own index up yields that machine: indices are
/// unique.
pub proof fn lemma_from_index_roundtrip(m: Machine)
    ensures
        Machine::spec_from_index(m.spec_index()) == Some(m),
{
}

} // verus!
