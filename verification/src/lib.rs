//! Verified core of a Discord task-tracking bot: its records (members,
//! tasks, tags, projects, roles, shop pages), the rules that change them,
//! and the text handling around them.
pub mod maps;
pub mod text;
pub mod events;
pub mod localization;
pub mod member;
pub mod shop;
pub mod tag;
pub mod project;
pub mod role;
pub mod task;
pub mod board;
pub mod logger;
pub mod command_manager;
pub mod connect;
pub mod converter;
pub mod member_changer;
pub mod changers;
pub mod member_embed;
pub mod cards;
pub mod saves;
pub mod shop_actions;
pub mod commands;
pub mod folders;
