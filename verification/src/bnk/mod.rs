//! Rules of the Wwise SoundBank (BNK) workspace.
pub mod labels;
pub mod listing;
