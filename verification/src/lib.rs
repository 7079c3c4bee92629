//! The heart of a server on which players of a rhythm game meet in rooms and
//! play together: who is in which room, what the host can do there, when a game
//! begins and ends, and what each command of a client leads to.
//!
//! [`server::process`] carries out the commands of a client, [`session`] decides
//! which of them are carried out at all, and [`sharing`] holds the rules for
//! sharing the server on a website. What the functions do is stated over the
//! mathematical models of [`scene`], for one room, and [`world`], for the whole
//! server; [`laws`] states what holds of them as a whole, and [`conduct`],
//! [`dealings`], [`menus`], [`affairs`] and [`words`] state, step by step, what
//! players see of it. [`deeds`] states it of the calls themselves, and [`views`]
//! that the models lose nothing.
pub mod affairs;
pub mod chance;
pub mod commands;
pub mod conduct;
pub mod dealings;
pub mod deeds;
pub mod game;
pub mod keeping;
pub mod keys;
pub mod laws;
pub mod menus;
pub mod order;
pub mod outbox;
pub mod panel;
pub mod protocol;
pub mod ranking;
pub mod room;
pub mod scene;
pub mod server;
pub mod session;
pub mod sharing;
pub mod text;
pub mod users;
pub mod views;
pub mod words;
pub mod world;
